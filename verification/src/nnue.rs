//! The quantized evaluator: a two-perspective feature accumulator over the
//! 49 squares per color plus a shared blocked-square feature set, a stack of
//! accumulator pairs for make/unmake, and a clipped-ReLU dot product output.
//!
//! The network tables are derived once from a fixed seed, so evaluation is
//! deterministic across runs; every accumulator operation's effect is stated
//! exactly, element by element, in wrapping 16-bit arithmetic (the same
//! algebra a vectorized implementation uses).

use vstd::prelude::*;
use vstd::wrapping::i16_specs;
use crate::position::Position;
use crate::rng::{fill_u64_array, spec_nth_output};
use crate::square::{Color, Square, Score, MAX_DEPTH, SCORE_WIN};
use crate::bitboard::bb_bit;

verus! {

/// Width of the hidden layer.
pub const L1_SIZE: usize = 64;

/// Features per perspective: two colors of 49 squares, then 49 blocked
/// squares.
pub const INPUT_SIZE: usize = 147;

/// Quantization scale of the hidden layer.
pub const L1_Q: i32 = 255;

/// Quantization scale of the output layer.
pub const OUTPUT_Q: i32 = 64;

/// Fixed rational scale from network units to centipawn-like scores.
pub const EVAL_SCALE: i32 = 400;

/// Seed the network tables are derived from.
pub const NET_SEED: u64 = 0x5eed0fabe11e44d1;

/// The `i`-th derived network table entry: a small signed weight.
pub open spec fn spec_net_entry(i: int) -> i16 {
    (spec_nth_output(NET_SEED, i as nat) % 256 - 128) as i16
}

/// The quantized single-hidden-layer network: feature-transformer weights
/// and biases, and the output row (one half per perspective).
pub struct Network {
    pub ft_weights: Vec<i16>,
    pub ft_biases: Vec<i16>,
    pub l1_weights: Vec<i16>,
}

impl Network {
    /// All three tables have their fixed sizes and derived contents.
    pub open spec fn wf(&self) -> bool {
        &&& self.ft_weights@.len() == 147 * 64
        &&& self.ft_biases@.len() == 64
        &&& self.l1_weights@.len() == 128
    }

    /// Builds the fixed tables from the seed.
    pub fn new() -> (r: Network)
        ensures
            r.wf(),
            forall|i: int|
                0 <= i < 147 * 64 ==> r.ft_weights@[i] == spec_net_entry(i),
            forall|i: int|
                0 <= i < 64 ==> r.ft_biases@[i] == spec_net_entry(147 * 64 + i),
            forall|i: int|
                0 <= i < 128 ==> r.l1_weights@[i] == spec_net_entry(147 * 64 + 64 + i),
    {
        let raw = fill_u64_array(NET_SEED, 147 * 64 + 64 + 128);
        let mut ft_weights: Vec<i16> = Vec::new();
        let mut ft_biases: Vec<i16> = Vec::new();
        let mut l1_weights: Vec<i16> = Vec::new();
        let mut i: usize = 0;
        while i < 147 * 64
            invariant
                0 <= i <= 147 * 64,
                raw@.len() == 147 * 64 + 64 + 128,
                forall|j: int| 0 <= j < raw@.len() ==> raw@[j] == spec_nth_output(NET_SEED, j as nat),
                ft_weights@.len() == i,
                forall|j: int| 0 <= j < i ==> ft_weights@[j] == spec_net_entry(j),
            decreases 147 * 64 - i,
        {
            ft_weights.push((raw[i] % 256) as i16 - 128);
            i = i + 1;
        }
        let mut k: usize = 0;
        while k < 64
            invariant
                0 <= k <= 64,
                raw@.len() == 147 * 64 + 64 + 128,
                forall|j: int| 0 <= j < raw@.len() ==> raw@[j] == spec_nth_output(NET_SEED, j as nat),
                ft_biases@.len() == k,
                forall|j: int| 0 <= j < k ==> ft_biases@[j] == spec_net_entry(147 * 64 + j),
            decreases 64 - k,
        {
            ft_biases.push((raw[147 * 64 + k] % 256) as i16 - 128);
            k = k + 1;
        }
        let mut t: usize = 0;
        while t < 128
            invariant
                0 <= t <= 128,
                raw@.len() == 147 * 64 + 64 + 128,
                forall|j: int| 0 <= j < raw@.len() ==> raw@[j] == spec_nth_output(NET_SEED, j as nat),
                l1_weights@.len() == t,
                forall|j: int| 0 <= j < t ==> l1_weights@[j] == spec_net_entry(147 * 64 + 64 + j),
            decreases 128 - t,
        {
            l1_weights.push((raw[147 * 64 + 64 + t] % 256) as i16 - 128);
            t = t + 1;
        }
        Network { ft_weights, ft_biases, l1_weights }
    }
}

/// A copy of a vector of activations.
fn copy_values(v: &Vec<i16>) -> (r: Vec<i16>)
    ensures
        r@ == v@,
{
    let n = v.len();
    let mut r: Vec<i16> = Vec::new();
    let mut i: usize = 0;
    while i < n
        invariant
            0 <= i <= n == v@.len(),
            r@ == v@.take(i as int),
        decreases n - i,
    {
        r.push(v[i]);
        proof {
            assert(r@ =~= v@.take(i + 1));
        }
        i = i + 1;
    }
    proof {
        assert(v@.take(n as int) =~= v@);
    }
    r
}

/// One perspective's vector of 16-bit activations.
#[derive(Debug, Clone, PartialEq, Eq)]
pub struct Accumulator {
    pub values: Vec<i16>,
}

/// One feature's weight row added into an accumulator, in wrapping 16-bit
/// arithmetic.
pub open spec fn spec_row_add(acc: Seq<i16>, w: Seq<i16>, f: int) -> Seq<i16> {
    Seq::new(64, |j: int| i16_specs::wrapping_add(acc[j], w[f * 64 + j]))
}

/// One feature's weight row subtracted from an accumulator.
pub open spec fn spec_row_sub(acc: Seq<i16>, w: Seq<i16>, f: int) -> Seq<i16> {
    Seq::new(64, |j: int| i16_specs::wrapping_sub(acc[j], w[f * 64 + j]))
}

impl Accumulator {
    pub open spec fn wf(&self) -> bool {
        self.values@.len() == 64
    }

    /// Adds feature `f`'s weight row.
    pub fn activate_feature(&mut self, net: &Network, f: usize)
        requires
            old(self).wf(),
            net.wf(),
            f < 147,
        ensures
            final(self).wf(),
            final(self).values@ == spec_row_add(old(self).values@, net.ft_weights@, f as int),
    {
        let mut j: usize = 0;
        while j < 64
            invariant
                0 <= j <= 64,
                self.values@.len() == 64,
                net.wf(),
                f < 147,
                forall|k: int|
                    0 <= k < j ==> self.values@[k] == i16_specs::wrapping_add(
                        old(self).values@[k],
                        net.ft_weights@[f * 64 + k],
                    ),
                forall|k: int| j <= k < 64 ==> self.values@[k] == old(self).values@[k],
            decreases 64 - j,
        {
            self.values[j] = self.values[j].wrapping_add(net.ft_weights[f * 64 + j]);
            j = j + 1;
        }
        proof {
            assert(self.values@ =~= spec_row_add(old(self).values@, net.ft_weights@, f as int));
        }
    }

    /// Subtracts feature `f`'s weight row.
    pub fn deactivate_feature(&mut self, net: &Network, f: usize)
        requires
            old(self).wf(),
            net.wf(),
            f < 147,
        ensures
            final(self).wf(),
            final(self).values@ == spec_row_sub(old(self).values@, net.ft_weights@, f as int),
    {
        let mut j: usize = 0;
        while j < 64
            invariant
                0 <= j <= 64,
                self.values@.len() == 64,
                net.wf(),
                f < 147,
                forall|k: int|
                    0 <= k < j ==> self.values@[k] == i16_specs::wrapping_sub(
                        old(self).values@[k],
                        net.ft_weights@[f * 64 + k],
                    ),
                forall|k: int| j <= k < 64 ==> self.values@[k] == old(self).values@[k],
            decreases 64 - j,
        {
            self.values[j] = self.values[j].wrapping_sub(net.ft_weights[f * 64 + j]);
            j = j + 1;
        }
        proof {
            assert(self.values@ =~= spec_row_sub(old(self).values@, net.ft_weights@, f as int));
        }
    }

    /// Moves a feature: one fused pass equal to deactivating the source and
    /// activating the destination.
    pub fn move_feature(&mut self, net: &Network, src: usize, dst: usize)
        requires
            old(self).wf(),
            net.wf(),
            src < 147,
            dst < 147,
        ensures
            final(self).wf(),
            final(self).values@ == spec_row_add(
                spec_row_sub(old(self).values@, net.ft_weights@, src as int),
                net.ft_weights@,
                dst as int,
            ),
    {
        let mut j: usize = 0;
        while j < 64
            invariant
                0 <= j <= 64,
                self.values@.len() == 64,
                net.wf(),
                src < 147,
                dst < 147,
                forall|k: int|
                    0 <= k < j ==> self.values@[k] == i16_specs::wrapping_add(
                        i16_specs::wrapping_sub(
                            old(self).values@[k],
                            net.ft_weights@[src * 64 + k],
                        ),
                        net.ft_weights@[dst * 64 + k],
                    ),
                forall|k: int| j <= k < 64 ==> self.values@[k] == old(self).values@[k],
            decreases 64 - j,
        {
            self.values[j] = self.values[j].wrapping_sub(net.ft_weights[src * 64 + j]).wrapping_add(
                net.ft_weights[dst * 64 + j],
            );
            j = j + 1;
        }
        proof {
            assert(self.values@ =~= spec_row_add(
                spec_row_sub(old(self).values@, net.ft_weights@, src as int),
                net.ft_weights@,
                dst as int,
            ));
        }
    }
}

/// The feature a piece of color `c_idx` on the square with dense index
/// `sq_idx` activates in the given perspective (0 red-relative, 1
/// blue-relative): own pieces use the first block, enemy pieces the second.
pub open spec fn spec_piece_feature(persp: int, c_idx: int, sq_idx: int) -> int {
    if persp == c_idx {
        sq_idx
    } else {
        49 + sq_idx
    }
}

/// The shared blocked-square feature of a square.
pub open spec fn spec_gap_feature(sq_idx: int) -> int {
    98 + sq_idx
}

/// The red-relative and blue-relative accumulators of one search ply.
#[derive(Debug, Clone, PartialEq, Eq)]
pub struct AccumulatorPair {
    pub red: Accumulator,
    pub blue: Accumulator,
}

/// A pair after activating one piece in both perspectives.
pub open spec fn spec_pair_activate(
    p: (Seq<i16>, Seq<i16>),
    w: Seq<i16>,
    c_idx: int,
    sq_idx: int,
) -> (Seq<i16>, Seq<i16>) {
    (
        spec_row_add(p.0, w, spec_piece_feature(0, c_idx, sq_idx)),
        spec_row_add(p.1, w, spec_piece_feature(1, c_idx, sq_idx)),
    )
}

/// A pair after deactivating one piece in both perspectives.
pub open spec fn spec_pair_deactivate(
    p: (Seq<i16>, Seq<i16>),
    w: Seq<i16>,
    c_idx: int,
    sq_idx: int,
) -> (Seq<i16>, Seq<i16>) {
    (
        spec_row_sub(p.0, w, spec_piece_feature(0, c_idx, sq_idx)),
        spec_row_sub(p.1, w, spec_piece_feature(1, c_idx, sq_idx)),
    )
}

/// A pair after activating one blocked square in both perspectives.
pub open spec fn spec_pair_activate_gap(p: (Seq<i16>, Seq<i16>), w: Seq<i16>, sq_idx: int) -> (
    Seq<i16>,
    Seq<i16>,
) {
    (spec_row_add(p.0, w, spec_gap_feature(sq_idx)), spec_row_add(p.1, w, spec_gap_feature(sq_idx)))
}

/// The dense index of a bit position.
pub open spec fn spec_dense_of_bit(i: int) -> int {
    i / 8 * 7 + i % 8
}

/// A pair after activating, in ascending square order, every piece of one
/// color over the set bits of `bb` below `n` (color 2 marks blocked squares).
pub open spec fn spec_pair_fold(
    p: (Seq<i16>, Seq<i16>),
    w: Seq<i16>,
    c_idx: int,
    bb: u64,
    n: nat,
) -> (Seq<i16>, Seq<i16>)
    decreases n,
{
    if n == 0 {
        p
    } else {
        let prev = spec_pair_fold(p, w, c_idx, bb, (n - 1) as nat);
        if bb_bit(bb, n - 1) {
            if c_idx == 2 {
                spec_pair_activate_gap(prev, w, spec_dense_of_bit(n - 1))
            } else {
                spec_pair_activate(prev, w, c_idx, spec_dense_of_bit(n - 1))
            }
        } else {
            prev
        }
    }
}

impl AccumulatorPair {
    pub open spec fn wf(&self) -> bool {
        self.red.wf() && self.blue.wf()
    }

    /// An exact copy of both perspectives.
    pub fn duplicate(&self) -> (r: AccumulatorPair)
        ensures
            r.view_pair() == self.view_pair(),
            r.red.values@ == self.red.values@,
            r.blue.values@ == self.blue.values@,
    {
        AccumulatorPair {
            red: Accumulator { values: copy_values(&self.red.values) },
            blue: Accumulator { values: copy_values(&self.blue.values) },
        }
    }

    pub open spec fn view_pair(&self) -> (Seq<i16>, Seq<i16>) {
        (self.red.values@, self.blue.values@)
    }

    /// A pair holding the bias row in both perspectives.
    pub fn biases(net: &Network) -> (r: AccumulatorPair)
        requires
            net.wf(),
        ensures
            r.wf(),
            r.red.values@ == net.ft_biases@,
            r.blue.values@ == net.ft_biases@,
    {
        let mut v: Vec<i16> = Vec::new();
        let mut j: usize = 0;
        while j < 64
            invariant
                0 <= j <= 64,
                net.wf(),
                v@ == net.ft_biases@.take(j as int),
            decreases 64 - j,
        {
            v.push(net.ft_biases[j]);
            proof {
                assert(v@ =~= net.ft_biases@.take(j + 1));
            }
            j = j + 1;
        }
        proof {
            assert(net.ft_biases@.take(64) =~= net.ft_biases@);
        }
        let w = copy_values(&v);
        AccumulatorPair { red: Accumulator { values: v }, blue: Accumulator { values: w } }
    }

    pub fn activate_feature(&mut self, net: &Network, c: Color, sq: Square)
        requires
            old(self).wf(),
            net.wf(),
            c.is_player(),
            sq.is_valid(),
        ensures
            final(self).wf(),
            final(self).view_pair() == spec_pair_activate(
                old(self).view_pair(),
                net.ft_weights@,
                c.value as int,
                sq.spec_idx(),
            ),
    {
        let si = sq.idx();
        if c.idx() == 0 {
            self.red.activate_feature(net, si);
            self.blue.activate_feature(net, 49 + si);
        } else {
            self.red.activate_feature(net, 49 + si);
            self.blue.activate_feature(net, si);
        }
    }

    pub fn deactivate_feature(&mut self, net: &Network, c: Color, sq: Square)
        requires
            old(self).wf(),
            net.wf(),
            c.is_player(),
            sq.is_valid(),
        ensures
            final(self).wf(),
            final(self).view_pair() == spec_pair_deactivate(
                old(self).view_pair(),
                net.ft_weights@,
                c.value as int,
                sq.spec_idx(),
            ),
    {
        let si = sq.idx();
        if c.idx() == 0 {
            self.red.deactivate_feature(net, si);
            self.blue.deactivate_feature(net, 49 + si);
        } else {
            self.red.deactivate_feature(net, 49 + si);
            self.blue.deactivate_feature(net, si);
        }
    }

    /// Relocates a piece of one color in both perspectives, as one fused
    /// deactivate-then-activate.
    pub fn move_feature(&mut self, net: &Network, c: Color, src_sq: Square, dst_sq: Square)
        requires
            old(self).wf(),
            net.wf(),
            c.is_player(),
            src_sq.is_valid(),
            dst_sq.is_valid(),
        ensures
            final(self).wf(),
            final(self).view_pair() == spec_pair_activate(
                spec_pair_deactivate(
                    old(self).view_pair(),
                    net.ft_weights@,
                    c.value as int,
                    src_sq.spec_idx(),
                ),
                net.ft_weights@,
                c.value as int,
                dst_sq.spec_idx(),
            ),
    {
        let si = src_sq.idx();
        let di = dst_sq.idx();
        if c.idx() == 0 {
            self.red.move_feature(net, si, di);
            self.blue.move_feature(net, 49 + si, 49 + di);
        } else {
            self.red.move_feature(net, 49 + si, 49 + di);
            self.blue.move_feature(net, si, di);
        }
    }

    pub fn activate_gap(&mut self, net: &Network, sq: Square)
        requires
            old(self).wf(),
            net.wf(),
            sq.is_valid(),
        ensures
            final(self).wf(),
            final(self).view_pair() == spec_pair_activate_gap(
                old(self).view_pair(),
                net.ft_weights@,
                sq.spec_idx(),
            ),
    {
        let si = sq.idx();
        self.red.activate_feature(net, 98 + si);
        self.blue.activate_feature(net, 98 + si);
    }

    /// Rebuilds from scratch: biases, then every blocked square, then every
    /// red piece, then every blue piece, each in ascending square order.
    pub fn reset(&mut self, net: &Network, pos: &Position)
        requires
            net.wf(),
            pos.wf(),
        ensures
            final(self).wf(),
            final(self).view_pair() == spec_pair_fold(
                spec_pair_fold(
                    spec_pair_fold(
                        (net.ft_biases@, net.ft_biases@),
                        net.ft_weights@,
                        2,
                        pos.spec_gaps(),
                        64,
                    ),
                    net.ft_weights@,
                    0,
                    pos.spec_red(),
                    64,
                ),
                net.ft_weights@,
                1,
                pos.spec_blue(),
                64,
            ),
    {
        let mut pair = AccumulatorPair::biases(net);
        pair.fold_color(net, 2, pos.gaps().raw());
        pair.fold_color(net, 0, pos.red_occupancy().raw());
        pair.fold_color(net, 1, pos.blue_occupancy().raw());
        proof {
            lemma_on_board_of_pos(pos);
        }
        *self = pair;
    }

    /// Activates one color's features over every set square of `bb`.
    fn fold_color(&mut self, net: &Network, c_idx: u8, bb: u64)
        requires
            old(self).wf(),
            net.wf(),
            c_idx == 0 || c_idx == 1 || c_idx == 2,
            bb & !crate::bitboard::BB_ALL == 0,
        ensures
            final(self).wf(),
            final(self).view_pair() == spec_pair_fold(
                old(self).view_pair(),
                net.ft_weights@,
                c_idx as int,
                bb,
                64,
            ),
    {
        let mut i: u64 = 0;
        while i < 64
            invariant
                0 <= i <= 64,
                self.wf(),
                net.wf(),
                c_idx == 0 || c_idx == 1 || c_idx == 2,
                bb & !crate::bitboard::BB_ALL == 0,
                self.view_pair() == spec_pair_fold(
                    old(self).view_pair(),
                    net.ft_weights@,
                    c_idx as int,
                    bb,
                    i as nat,
                ),
            decreases 64 - i,
        {
            if (bb >> i) & 1 == 1 {
                proof {
                    crate::position::lemma_on_board_bit_valid(bb, i);
                }
                let sq = Square::from_raw(i as u8);
                if c_idx == 2 {
                    self.activate_gap(net, sq);
                } else {
                    self.activate_feature(net, Color { value: c_idx }, sq);
                }
            }
            i = i + 1;
        }
    }
}

/// The boards of a well-formed position sit on the playing squares.
proof fn lemma_on_board_of_pos(pos: &Position)
    requires
        pos.wf(),
    ensures
        pos.spec_red() & !crate::bitboard::BB_ALL == 0,
        pos.spec_blue() & !crate::bitboard::BB_ALL == 0,
        pos.spec_gaps() & !crate::bitboard::BB_ALL == 0,
{
    assert(pos.spec_states()[pos.spec_states().len() - 1].wf(pos.spec_gaps()));
}

/// The clipped activation: clamp into the quantization band.
pub open spec fn spec_crelu(v: i16) -> int {
    if v < 0 {
        0
    } else if v > 255 {
        255
    } else {
        v as int
    }
}

/// Dot product of the activated accumulator with one half of the output row.
pub open spec fn spec_dot(acc: Seq<i16>, w: Seq<i16>, off: int, n: nat) -> int
    decreases n,
{
    if n == 0 {
        0
    } else {
        spec_dot(acc, w, off, (n - 1) as nat) + spec_crelu(acc[n - 1]) * (w[off + n - 1] as int)
    }
}

/// The dot product grows by at most one saturated product per term.
proof fn lemma_dot_bounds(acc: Seq<i16>, w: Seq<i16>, off: int, n: nat)
    requires
        acc.len() == 64,
        w.len() == 128,
        0 <= off,
        off + 64 <= 128,
        n <= 64,
    ensures
        -8355840 * n <= spec_dot(acc, w, off, n) <= 8355840 * n,
    decreases n,
{
    if n > 0 {
        lemma_dot_bounds(acc, w, off, (n - 1) as nat);
        let c = spec_crelu(acc[n - 1]);
        let ww = w[off + n - 1] as int;
        assert(-8355840 <= c * ww <= 8355840) by (nonlinear_arith)
            requires
                0 <= c <= 255,
                -32768 <= ww <= 32767,
        ;
    }
}

/// The raw network output for the side to move: its own perspective against
/// the first half of the output row, the opponent against the second.
pub open spec fn spec_net_output(ours: Seq<i16>, theirs: Seq<i16>, w: Seq<i16>) -> int {
    spec_dot(ours, w, 0, 64) + spec_dot(theirs, w, 64, 64)
}

/// Division truncating toward zero, as machine signed division does.
pub open spec fn spec_tdiv(x: int, d: int) -> int {
    if x >= 0 {
        x / d
    } else {
        -((-x) / d)
    }
}

/// The final score: the output scaled by the fixed rational factor and
/// clamped strictly inside the forced-win band.
pub open spec fn spec_eval_score(ours: Seq<i16>, theirs: Seq<i16>, w: Seq<i16>) -> int {
    let scaled = spec_tdiv(
        spec_net_output(ours, theirs, w) * (EVAL_SCALE as int),
        (L1_Q * OUTPUT_Q) as int,
    );
    if scaled <= -(SCORE_WIN - 1) {
        -(SCORE_WIN - 1) as int
    } else if scaled >= SCORE_WIN - 1 {
        (SCORE_WIN - 1) as int
    } else {
        scaled
    }
}

/// One half of the output dot product.
fn dot_half(acc: &Accumulator, net: &Network, off: usize) -> (r: i64)
    requires
        acc.wf(),
        net.wf(),
        off == 0 || off == 64,
    ensures
        r == spec_dot(acc.values@, net.l1_weights@, off as int, 64),
        -8355840 * 64 <= r <= 8355840 * 64,
{
    proof {
        lemma_dot_bounds(acc.values@, net.l1_weights@, off as int, 64);
    }
    let mut sum: i64 = 0;
    let mut j: usize = 0;
    while j < 64
        invariant
            0 <= j <= 64,
            acc.wf(),
            net.wf(),
            off == 0 || off == 64,
            sum == spec_dot(acc.values@, net.l1_weights@, off as int, j as nat),
            -8355840 * j <= sum <= 8355840 * j,
        decreases 64 - j,
    {
        let v = acc.values[j];
        let c: i64 = if v < 0 {
            0
        } else if v > 255 {
            255
        } else {
            v as i64
        };
        let wj = net.l1_weights[off + j] as i64;
        proof {
            lemma_dot_bounds(acc.values@, net.l1_weights@, off as int, (j + 1) as nat);
            assert(-8355840 <= c * wj <= 8355840) by (nonlinear_arith)
                requires
                    0 <= c <= 255,
                    -32768 <= wj <= 32767,
            ;
        }
        sum = sum + c * wj;
        j = j + 1;
    }
    sum
}

/// Evaluates an accumulator pair for the given side to move.
fn evaluate_pair(pair: &AccumulatorPair, net: &Network, stm: Color) -> (r: Score)
    requires
        pair.wf(),
        net.wf(),
        stm.is_player(),
    ensures
        ({
            let ours = if stm.value == 0 {
                pair.red.values@
            } else {
                pair.blue.values@
            };
            let theirs = if stm.value == 0 {
                pair.blue.values@
            } else {
                pair.red.values@
            };
            r == spec_eval_score(ours, theirs, net.l1_weights@)
        }),
        -SCORE_WIN < r < SCORE_WIN,
{
    let (a, b) = if stm.idx() == 0 {
        (&pair.red, &pair.blue)
    } else {
        (&pair.blue, &pair.red)
    };
    let ours = dot_half(a, net, 0);
    let theirs = dot_half(b, net, 64);
    let total: i64 = ours + theirs;
    let prod: i64 = total * 400;
    let scaled: i64 = if prod >= 0 {
        prod / 16320
    } else {
        -((-prod) / 16320)
    };
    proof {
        assert(scaled == spec_tdiv(
            spec_net_output(
                if stm.value == 0 {
                    pair.red.values@
                } else {
                    pair.blue.values@
                },
                if stm.value == 0 {
                    pair.blue.values@
                } else {
                    pair.red.values@
                },
                net.l1_weights@,
            ) * (EVAL_SCALE as int),
            (L1_Q * OUTPUT_Q) as int,
        ));
    }
    if scaled <= -(SCORE_WIN as i64 - 1) {
        -(SCORE_WIN - 1)
    } else if scaled >= SCORE_WIN as i64 - 1 {
        SCORE_WIN - 1
    } else {
        scaled as i32
    }
}

/// The evaluator state a search carries: the network and a stack of
/// accumulator pairs, one per ply.
pub struct NnueState {
    net: Network,
    stack: Vec<AccumulatorPair>,
    idx: usize,
}

impl NnueState {
    pub closed spec fn spec_net(&self) -> &Network {
        &self.net
    }

    pub closed spec fn spec_stack(&self) -> Seq<AccumulatorPair> {
        self.stack@
    }

    pub closed spec fn spec_idx(&self) -> int {
        self.idx as int
    }

    /// The pair evaluation and updates act on.
    pub open spec fn spec_top(&self) -> AccumulatorPair {
        self.spec_stack()[self.spec_idx()]
    }

    pub open spec fn wf(&self) -> bool {
        &&& self.spec_net().wf()
        &&& self.spec_stack().len() == (MAX_DEPTH + 1) as int
        &&& 0 <= self.spec_idx() < (MAX_DEPTH + 1) as int
        &&& forall|i: int|
            0 <= i < self.spec_stack().len() ==> (#[trigger] self.spec_stack()[i]).wf()
    }

    /// A fresh evaluator at stack depth zero.
    pub fn new() -> (r: NnueState)
        ensures
            r.wf(),
            r.spec_idx() == 0,
    {
        let net = Network::new();
        let mut stack: Vec<AccumulatorPair> = Vec::new();
        let base = AccumulatorPair::biases(&net);
        let mut i: usize = 0;
        while i < 256
            invariant
                0 <= i <= 256,
                base.wf(),
                stack@.len() == i,
                forall|j: int| 0 <= j < i ==> (#[trigger] stack@[j]).wf(),
            decreases 256 - i,
        {
            let c = base.duplicate();
            stack.push(c);
            i = i + 1;
        }
        NnueState { net, stack, idx: 0 }
    }

    /// Rebuilds the current pair from the position; only valid at depth
    /// zero.
    pub fn reset(&mut self, pos: &Position)
        requires
            old(self).wf(),
            old(self).spec_idx() == 0,
            pos.wf(),
        ensures
            final(self).wf(),
            final(self).spec_idx() == 0,
            final(self).spec_net() == old(self).spec_net(),
            final(self).spec_top().view_pair() == spec_pair_fold(
                spec_pair_fold(
                    spec_pair_fold(
                        (old(self).spec_net().ft_biases@, old(self).spec_net().ft_biases@),
                        old(self).spec_net().ft_weights@,
                        2,
                        pos.spec_gaps(),
                        64,
                    ),
                    old(self).spec_net().ft_weights@,
                    0,
                    pos.spec_red(),
                    64,
                ),
                old(self).spec_net().ft_weights@,
                1,
                pos.spec_blue(),
                64,
            ),
    {
        let mut pair = AccumulatorPair::biases(&self.net);
        pair.fold_color(&self.net, 2, pos.gaps().raw());
        pair.fold_color(&self.net, 0, pos.red_occupancy().raw());
        pair.fold_color(&self.net, 1, pos.blue_occupancy().raw());
        proof {
            lemma_on_board_of_pos(pos);
        }
        self.stack[0] = pair;
    }

    /// Copies the current pair one ply deeper.
    pub fn push(&mut self)
        requires
            old(self).wf(),
            old(self).spec_idx() + 1 < (MAX_DEPTH + 1) as int,
        ensures
            final(self).wf(),
            final(self).spec_net() == old(self).spec_net(),
            final(self).spec_idx() == old(self).spec_idx() + 1,
            final(self).spec_top().view_pair() == old(self).spec_top().view_pair(),
            final(self).spec_stack().len() == old(self).spec_stack().len(),
            forall|i: int|
                0 <= i < old(self).spec_stack().len() && i != old(self).spec_idx() + 1
                    ==> final(self).spec_stack()[i] == old(self).spec_stack()[i],
    {
        let i = self.idx;
        let c = self.stack[i].duplicate();
        let dst = self.idx + 1;
        self.stack[dst] = c;
        self.idx = dst;
    }

    /// Steps one ply back up, recovering the pair the matching push copied.
    /// Popping at the floor is a programming error, so the depth is demanded
    /// up front.
    pub fn pop(&mut self) -> (r: bool)
        requires
            old(self).wf(),
            old(self).spec_idx() > 0,
        ensures
            final(self).wf(),
            final(self).spec_net() == old(self).spec_net(),
            r,
            final(self).spec_idx() == old(self).spec_idx() - 1,
            final(self).spec_stack() == old(self).spec_stack(),
    {
        self.idx = self.idx - 1;
        true
    }

    /// Activates a piece on the current pair.
    pub fn activate_feature(&mut self, c: Color, sq: Square)
        requires
            old(self).wf(),
            c.is_player(),
            sq.is_valid(),
        ensures
            final(self).wf(),
            final(self).spec_net() == old(self).spec_net(),
            final(self).spec_idx() == old(self).spec_idx(),
            final(self).spec_top().view_pair() == spec_pair_activate(
                old(self).spec_top().view_pair(),
                old(self).spec_net().ft_weights@,
                c.value as int,
                sq.spec_idx(),
            ),
            final(self).spec_stack().len() == old(self).spec_stack().len(),
            forall|i: int|
                0 <= i < old(self).spec_stack().len() && i != old(self).spec_idx()
                    ==> final(self).spec_stack()[i] == old(self).spec_stack()[i],
    {
        let i = self.idx;
        let pair = &mut self.stack[i];
        pair.activate_feature(&self.net, c, sq);
    }

    /// Deactivates a piece on the current pair.
    pub fn deactivate_feature(&mut self, c: Color, sq: Square)
        requires
            old(self).wf(),
            c.is_player(),
            sq.is_valid(),
        ensures
            final(self).wf(),
            final(self).spec_net() == old(self).spec_net(),
            final(self).spec_idx() == old(self).spec_idx(),
            final(self).spec_top().view_pair() == spec_pair_deactivate(
                old(self).spec_top().view_pair(),
                old(self).spec_net().ft_weights@,
                c.value as int,
                sq.spec_idx(),
            ),
            final(self).spec_stack().len() == old(self).spec_stack().len(),
            forall|i: int|
                0 <= i < old(self).spec_stack().len() && i != old(self).spec_idx()
                    ==> final(self).spec_stack()[i] == old(self).spec_stack()[i],
    {
        let i = self.idx;
        let pair = &mut self.stack[i];
        pair.deactivate_feature(&self.net, c, sq);
    }

    /// Relocates a piece on the current pair, as one fused pass.
    pub fn move_feature(&mut self, c: Color, src_sq: Square, dst_sq: Square)
        requires
            old(self).wf(),
            c.is_player(),
            src_sq.is_valid(),
            dst_sq.is_valid(),
        ensures
            final(self).wf(),
            final(self).spec_net() == old(self).spec_net(),
            final(self).spec_idx() == old(self).spec_idx(),
            final(self).spec_top().view_pair() == spec_pair_activate(
                spec_pair_deactivate(
                    old(self).spec_top().view_pair(),
                    old(self).spec_net().ft_weights@,
                    c.value as int,
                    src_sq.spec_idx(),
                ),
                old(self).spec_net().ft_weights@,
                c.value as int,
                dst_sq.spec_idx(),
            ),
            final(self).spec_stack().len() == old(self).spec_stack().len(),
            forall|i: int|
                0 <= i < old(self).spec_stack().len() && i != old(self).spec_idx()
                    ==> final(self).spec_stack()[i] == old(self).spec_stack()[i],
    {
        let i = self.idx;
        let pair = &mut self.stack[i];
        pair.move_feature(&self.net, c, src_sq, dst_sq);
    }

    /// Activates a blocked square on the current pair.
    pub fn activate_gap(&mut self, sq: Square)
        requires
            old(self).wf(),
            sq.is_valid(),
        ensures
            final(self).wf(),
            final(self).spec_net() == old(self).spec_net(),
            final(self).spec_idx() == old(self).spec_idx(),
            final(self).spec_top().view_pair() == spec_pair_activate_gap(
                old(self).spec_top().view_pair(),
                old(self).spec_net().ft_weights@,
                sq.spec_idx(),
            ),
            final(self).spec_stack().len() == old(self).spec_stack().len(),
            forall|i: int|
                0 <= i < old(self).spec_stack().len() && i != old(self).spec_idx()
                    ==> final(self).spec_stack()[i] == old(self).spec_stack()[i],
    {
        let i = self.idx;
        let pair = &mut self.stack[i];
        pair.activate_gap(&self.net, sq);
    }

    /// The score of the current pair for the given side to move, strictly
    /// inside the forced-win band.
    pub fn evaluate(&self, stm: Color) -> (r: Score)
        requires
            self.wf(),
            stm.is_player(),
        ensures
            ({
                let top = self.spec_top();
                let ours = if stm.value == 0 {
                    top.red.values@
                } else {
                    top.blue.values@
                };
                let theirs = if stm.value == 0 {
                    top.blue.values@
                } else {
                    top.red.values@
                };
                r == spec_eval_score(ours, theirs, self.spec_net().l1_weights@)
            }),
            -SCORE_WIN < r < SCORE_WIN,
    {
        let i = self.idx;
        evaluate_pair(&self.stack[i], &self.net, stm)
    }
}

/// Evaluates a position from scratch, without touching any search state.
pub fn evaluate_once(pos: &Position) -> (r: Score)
    requires
        pos.wf(),
    ensures
        -SCORE_WIN < r < SCORE_WIN,
{
    let net = Network::new();
    let mut pair = AccumulatorPair::biases(&net);
    pair.fold_color(&net, 2, pos.gaps().raw());
    pair.fold_color(&net, 0, pos.red_occupancy().raw());
    pair.fold_color(&net, 1, pos.blue_occupancy().raw());
    proof {
        lemma_on_board_of_pos(pos);
    }
    evaluate_pair(&pair, &net, pos.side_to_move())
}

} // verus!
