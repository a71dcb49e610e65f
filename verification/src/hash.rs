//! Zobrist hashing: fixed per-(color, square) keys plus a side-to-move key,
//! derived once from a fixed seed, and the XOR-fold that defines the key of a
//! whole position.

use vstd::prelude::*;
use crate::bitboard::bb_bit;
use crate::rng::{spec_jsf_init, spec_jsf_iter, spec_jsf_step, spec_nth_output, Jsf64Rng};
use crate::square::{Color, Square};

verus! {

/// The seed all hash keys derive from.
pub const HASH_SEED: u64 = 0x22ff7d8af027681b;

/// Index of the side-to-move key in the derived key sequence: the 49 squares
/// times 2 colors come first.
pub const STM_KEY_INDEX: usize = 98;

/// Common XOR identities, available to any proof that rearranges key folds.
pub proof fn lemma_xor_facts()
    by (bit_vector)
    ensures
        forall|a: u64, b: u64| #[trigger] (a ^ b) == b ^ a,
        forall|a: u64, b: u64, c: u64| #[trigger] ((a ^ b) ^ c) == a ^ (b ^ c),
        forall|a: u64| #[trigger] (a ^ 0) == a,
        forall|a: u64| #[trigger] (a ^ a) == 0,
{
}

/// The key of color `c_idx` on the square with dense index `sq_idx`.
pub open spec fn spec_color_square_key(c_idx: int, sq_idx: int) -> u64 {
    spec_nth_output(HASH_SEED, (sq_idx * 2 + c_idx) as nat)
}

/// The key XORed in when blue is to move.
pub open spec fn spec_stm_key() -> u64 {
    spec_nth_output(HASH_SEED, STM_KEY_INDEX as nat)
}

/// Dense square index of a bit index.
pub open spec fn spec_sq_idx_of_bit(i: int) -> int {
    i / 8 * 7 + i % 8
}

/// The key contribution of bit `i`: the red key if red holds the square, XOR
/// the blue key if blue holds it.
pub open spec fn spec_bit_key(red: u64, blue: u64, i: int) -> u64 {
    (if bb_bit(red, i) {
        spec_color_square_key(0, spec_sq_idx_of_bit(i))
    } else {
        0u64
    }) ^ (if bb_bit(blue, i) {
        spec_color_square_key(1, spec_sq_idx_of_bit(i))
    } else {
        0u64
    })
}

/// XOR of the key contributions of all bits below `n`.
pub open spec fn spec_pieces_key(red: u64, blue: u64, n: nat) -> u64
    decreases n,
{
    if n == 0 {
        0
    } else {
        spec_pieces_key(red, blue, (n - 1) as nat) ^ spec_bit_key(red, blue, (n - 1) as int)
    }
}

/// The Zobrist key of a whole position: one key per occupied (color, square)
/// pair, plus the side-to-move key when blue is to move.
pub open spec fn spec_board_key(red: u64, blue: u64, blue_to_move: bool) -> u64 {
    spec_pieces_key(red, blue, 64) ^ (if blue_to_move {
        spec_stm_key()
    } else {
        0u64
    })
}

/// Toggling one red bit `s` XORs exactly red's key for `s` into the fold.
pub proof fn lemma_pieces_key_toggle_red(red: u64, blue: u64, s: u64, n: nat)
    requires
        s < 64,
        n <= 64,
    ensures
        spec_pieces_key(red ^ (1u64 << s), blue, n) == if s < n {
            spec_pieces_key(red, blue, n) ^ spec_color_square_key(0, spec_sq_idx_of_bit(s as int))
        } else {
            spec_pieces_key(red, blue, n)
        },
    decreases n,
{
    lemma_xor_facts();
    if n > 0 {
        lemma_pieces_key_toggle_red(red, blue, s, (n - 1) as nat);
        let i = (n - 1) as u64;
        let red2 = red ^ (1u64 << s);
        crate::bitboard::lemma_bit_toggle(red, s, i);
    }
}

/// Toggling one blue bit `s` XORs exactly blue's key for `s` into the fold.
pub proof fn lemma_pieces_key_toggle_blue(red: u64, blue: u64, s: u64, n: nat)
    requires
        s < 64,
        n <= 64,
    ensures
        spec_pieces_key(red, blue ^ (1u64 << s), n) == if s < n {
            spec_pieces_key(red, blue, n) ^ spec_color_square_key(1, spec_sq_idx_of_bit(s as int))
        } else {
            spec_pieces_key(red, blue, n)
        },
    decreases n,
{
    lemma_xor_facts();
    if n > 0 {
        lemma_pieces_key_toggle_blue(red, blue, s, (n - 1) as nat);
        let i = (n - 1) as u64;
        crate::bitboard::lemma_bit_toggle(blue, s, i);
    }
}

/// A bit of an XOR is the XOR of the bits.
pub proof fn lemma_bit_of_xor(a: u64, b: u64, i: u64)
    by (bit_vector)
    requires
        i < 64,
    ensures
        ((a ^ b) >> i) & 1 == ((a >> i) & 1) ^ ((b >> i) & 1),
        ((a >> i) & 1) == 0 || ((a >> i) & 1) == 1,
        ((b >> i) & 1) == 0 || ((b >> i) & 1) == 1,
{
}

/// The key delta of flipping every square of `c` (below bit `n`) from one
/// side to the other: both colors' keys, XORed over the set.
pub open spec fn spec_capture_keys(c: u64, n: nat) -> u64
    decreases n,
{
    if n == 0 {
        0
    } else {
        spec_capture_keys(c, (n - 1) as nat) ^ (if bb_bit(c, n - 1) {
            spec_color_square_key(0, spec_sq_idx_of_bit(n - 1)) ^ spec_color_square_key(
                1,
                spec_sq_idx_of_bit(n - 1),
            )
        } else {
            0u64
        })
    }
}

/// The delta of an empty set is zero.
pub proof fn lemma_capture_keys_zero(n: nat)
    ensures
        spec_capture_keys(0, n) == 0,
    decreases n,
{
    lemma_xor_facts();
    if n > 0 {
        lemma_capture_keys_zero((n - 1) as nat);
        crate::bitboard::lemma_zero_word(0, (n - 1) as u64);
    }
}

/// Toggling one bit of the set XORs that square's pair of keys into the
/// delta.
pub proof fn lemma_capture_keys_toggle(c: u64, s: u64, n: nat)
    requires
        s < 64,
        n <= 64,
    ensures
        spec_capture_keys(c ^ (1u64 << s), n) == if s < n {
            spec_capture_keys(c, n) ^ (spec_color_square_key(0, spec_sq_idx_of_bit(s as int))
                ^ spec_color_square_key(1, spec_sq_idx_of_bit(s as int)))
        } else {
            spec_capture_keys(c, n)
        },
    decreases n,
{
    lemma_xor_facts();
    if n > 0 {
        lemma_capture_keys_toggle(c, s, (n - 1) as nat);
        let i = (n - 1) as u64;
        crate::bitboard::lemma_bit_toggle(c, s, i);
    }
}

/// Moving the squares of `c` from one side to the other XORs the capture
/// delta of `c` into the fold.
pub proof fn lemma_pieces_key_toggle_set(red: u64, blue: u64, c: u64, n: nat)
    requires
        n <= 64,
    ensures
        spec_pieces_key(red ^ c, blue ^ c, n) == spec_pieces_key(red, blue, n)
            ^ spec_capture_keys(c, n),
    decreases n,
{
    lemma_xor_facts();
    if n > 0 {
        lemma_pieces_key_toggle_set(red, blue, c, (n - 1) as nat);
        let i = (n - 1) as u64;
        lemma_bit_of_xor(red, c, i);
        lemma_bit_of_xor(blue, c, i);
        let k0 = spec_color_square_key(0, spec_sq_idx_of_bit(i as int));
        let k1 = spec_color_square_key(1, spec_sq_idx_of_bit(i as int));
        if bb_bit(c, i as int) {
            assert(spec_bit_key(red ^ c, blue ^ c, i as int) == spec_bit_key(red, blue, i as int)
                ^ (k0 ^ k1)) by {
                lemma_xor_facts();
                if bb_bit(red, i as int) {
                    if bb_bit(blue, i as int) {
                        assert((k0 ^ k1) ^ (k0 ^ k1) == 0);
                    } else {
                        assert(k0 ^ (k0 ^ k1) == (k0 ^ k0) ^ k1);
                    }
                } else {
                    if bb_bit(blue, i as int) {
                        assert(k1 ^ (k0 ^ k1) == k1 ^ (k1 ^ k0));
                        assert(k1 ^ (k1 ^ k0) == (k1 ^ k1) ^ k0);
                    }
                }
            }
        } else {
            assert(spec_bit_key(red ^ c, blue ^ c, i as int) == spec_bit_key(red, blue, i as int));
        }
    }
}

/// The `i`-th derived key.
fn nth_output(seed: u64, i: usize) -> (r: u64)
    requires
        i < usize::MAX,
    ensures
        r == spec_nth_output(seed, i as nat),
{
    let mut rng = Jsf64Rng::new(seed);
    proof {
        assert(spec_jsf_iter(spec_jsf_init(seed), 0) == spec_jsf_init(seed));
        assert(spec_jsf_iter(spec_jsf_init(seed), 1) == spec_jsf_step(
            spec_jsf_iter(spec_jsf_init(seed), 0),
        ));
    }
    let mut k: usize = 0;
    let mut out: u64 = rng.next_u64();
    while k < i
        invariant
            0 <= k <= i,
            i < usize::MAX,
            rng.spec_state() == spec_jsf_iter(spec_jsf_init(seed), (k + 1) as nat),
            out == spec_nth_output(seed, k as nat),
        decreases i - k,
    {
        out = rng.next_u64();
        k = k + 1;
    }
    out
}

/// The Zobrist key of `c`'s piece on `sq`.
pub fn color_square_key(c: Color, sq: Square) -> (r: u64)
    requires
        c.is_player(),
        sq.is_valid(),
    ensures
        r == spec_color_square_key(c.value as int, sq.spec_idx()),
{
    nth_output(HASH_SEED, sq.idx() * 2 + c.idx())
}

/// The Zobrist key of the side to move being blue.
pub fn stm_key() -> (r: u64)
    ensures
        r == spec_stm_key(),
{
    nth_output(HASH_SEED, STM_KEY_INDEX)
}

} // verus!
