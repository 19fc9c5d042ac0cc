//! What holds of the turning grille: a valid stencil visits every cell of a
//! block once, and what was written through it is read through it again.

use crate::grille_model::{
    block_count, chunk, cover_count, encrypted_block, encrypted_blocks, hole_at, holes,
    holes_before, letter_in, offered, one_if, overlap_free, padded, read_at, read_blocks,
    valid_stencil, visits, written,
};
use crate::rotating_grille::{lemma_holes_before, rotated, CardboardMatrix};
use crate::text::{all_latin_capitals, is_latin_capital};
use vstd::prelude::*;

verus! {

/// The holes among the first `k` cells come in rising order, each is a hole,
/// and every hole among these cells is one of them.
pub proof fn lemma_holes_in_order(stencil: CardboardMatrix, k: nat)
    ensures
        forall|n: int|
            0 <= n < holes_before(stencil, k).len() ==> hole_at(
                stencil,
                #[trigger] holes_before(stencil, k)[n],
            ),
        forall|n: int, m: int|
            0 <= n < m < holes_before(stencil, k).len() ==> #[trigger] holes_before(stencil, k)[n]
                < #[trigger] holes_before(stencil, k)[m],
        forall|c: int| 0 <= c < k && hole_at(stencil, c) ==> holes_before(stencil, k).contains(c),
    decreases k,
{
    if k > 0 {
        let fewer = holes_before(stencil, (k - 1) as nat);
        lemma_holes_in_order(stencil, (k - 1) as nat);
        lemma_holes_before(stencil, (k - 1) as nat);
        let all = holes_before(stencil, k);
        assert forall|c: int| 0 <= c < k && hole_at(stencil, c) implies all.contains(c) by {
            if c < k - 1 {
                let n = choose|n: int| 0 <= n < fewer.len() && fewer[n] == c;
                assert(all[n] == c);
            } else {
                assert(all[all.len() - 1] == c);
            }
        }
    }
}

/// The cover counts of the first `k` cells, added up.
spec fn cover_sum(key: CardboardMatrix, k: nat) -> int
    decreases k,
{
    if k == 0 {
        0
    } else {
        cover_sum(key, (k - 1) as nat) + cover_count(key, k - 1)
    }
}

/// The holes of the four positions among the first `k` cells, counted
/// together, are the cover counts of these cells added up.
proof fn lemma_hole_total(key: CardboardMatrix, k: nat)
    ensures
        holes_before(key, k).len() + holes_before(rotated(key), k).len() + holes_before(
            rotated(rotated(key)),
            k,
        ).len() + holes_before(rotated(rotated(rotated(key))), k).len() == cover_sum(key, k),
    decreases k,
{
    if k > 0 {
        lemma_hole_total(key, (k - 1) as nat);
    }
}

/// Where every cell is covered once, the first `k` cells are covered `k` times.
proof fn lemma_cover_sum_valid(key: CardboardMatrix, k: nat)
    requires
        valid_stencil(key),
        k <= 16,
    ensures
        cover_sum(key, k) == k,
    decreases k,
{
    if k > 0 {
        lemma_cover_sum_valid(key, (k - 1) as nat);
        assert(cover_count(key, k - 1) == 1);
    }
}

/// The number of holes of a stencil, cell by cell.
spec fn hole_sum(s: CardboardMatrix) -> int {
    one_if(s[0][0]) + one_if(s[0][1]) + one_if(s[0][2]) + one_if(s[0][3]) + one_if(s[1][0])
        + one_if(s[1][1]) + one_if(s[1][2]) + one_if(s[1][3]) + one_if(s[2][0]) + one_if(s[2][1])
        + one_if(s[2][2]) + one_if(s[2][3]) + one_if(s[3][0]) + one_if(s[3][1]) + one_if(s[3][2])
        + one_if(s[3][3])
}

/// The number of holes among the first `k` cells.
spec fn hole_count(s: CardboardMatrix, k: nat) -> int
    decreases k,
{
    if k == 0 {
        0
    } else {
        hole_count(s, (k - 1) as nat) + one_if(hole_at(s, k - 1))
    }
}

/// The holes among the first `k` cells, listed, are as many as counted.
proof fn lemma_hole_count(s: CardboardMatrix, k: nat)
    ensures
        holes_before(s, k).len() == hole_count(s, k),
    decreases k,
{
    if k > 0 {
        lemma_hole_count(s, (k - 1) as nat);
    }
}

/// The holes of a stencil, counted in reading order, are its holes counted
/// cell by cell.
proof fn lemma_hole_sum(s: CardboardMatrix)
    ensures
        holes(s).len() == hole_sum(s),
{
    lemma_hole_count(s, 16);
    assert(hole_count(s, 0) == 0);
    assert(hole_count(s, 1) == hole_count(s, 0) + one_if(s[0][0]));
    assert(hole_count(s, 2) == hole_count(s, 1) + one_if(s[0][1]));
    assert(hole_count(s, 3) == hole_count(s, 2) + one_if(s[0][2]));
    assert(hole_count(s, 4) == hole_count(s, 3) + one_if(s[0][3]));
    assert(hole_count(s, 5) == hole_count(s, 4) + one_if(s[1][0]));
    assert(hole_count(s, 6) == hole_count(s, 5) + one_if(s[1][1]));
    assert(hole_count(s, 7) == hole_count(s, 6) + one_if(s[1][2]));
    assert(hole_count(s, 8) == hole_count(s, 7) + one_if(s[1][3]));
    assert(hole_count(s, 9) == hole_count(s, 8) + one_if(s[2][0]));
    assert(hole_count(s, 10) == hole_count(s, 9) + one_if(s[2][1]));
    assert(hole_count(s, 11) == hole_count(s, 10) + one_if(s[2][2]));
    assert(hole_count(s, 12) == hole_count(s, 11) + one_if(s[2][3]));
    assert(hole_count(s, 13) == hole_count(s, 12) + one_if(s[3][0]));
    assert(hole_count(s, 14) == hole_count(s, 13) + one_if(s[3][1]));
    assert(hole_count(s, 15) == hole_count(s, 14) + one_if(s[3][2]));
    assert(hole_count(s, 16) == hole_count(s, 15) + one_if(s[3][3]));
}

/// Turning a stencil keeps the number of its holes.
pub proof fn lemma_turning_keeps_holes(key: CardboardMatrix)
    ensures
        holes(rotated(key)).len() == holes(key).len(),
{
    lemma_hole_sum(key);
    lemma_hole_sum(rotated(key));
}

/// Cover counts that are at most 1 each and add up to `k` over `k` cells are 1
/// each.
proof fn lemma_cover_sum_full(key: CardboardMatrix, k: nat)
    requires
        overlap_free(key),
        k <= 16,
    ensures
        cover_sum(key, k) <= k,
        cover_sum(key, k) == k ==> forall|c: int| 0 <= c < k ==> #[trigger] cover_count(key, c)
            == 1,
    decreases k,
{
    if k > 0 {
        lemma_cover_sum_full(key, (k - 1) as nat);
        assert(cover_count(key, k - 1) <= 1);
    }
}

/// A valid stencil has four holes.
pub proof fn lemma_valid_stencil_has_four_holes(key: CardboardMatrix)
    requires
        valid_stencil(key),
    ensures
        holes(key).len() == 4,
{
    lemma_turning_keeps_holes(key);
    lemma_turning_keeps_holes(rotated(key));
    lemma_turning_keeps_holes(rotated(rotated(key)));
    lemma_hole_total(key, 16);
    lemma_cover_sum_valid(key, 16);
}

/// A stencil whose holes do not meet when it is turned is valid as soon as it
/// has four holes, and not before.
pub proof fn lemma_four_holes_apart_are_valid(key: CardboardMatrix)
    requires
        overlap_free(key),
    ensures
        valid_stencil(key) <==> holes(key).len() == 4,
{
    lemma_turning_keeps_holes(key);
    lemma_turning_keeps_holes(rotated(key));
    lemma_turning_keeps_holes(rotated(rotated(key)));
    lemma_hole_total(key, 16);
    lemma_cover_sum_full(key, 16);
    if valid_stencil(key) {
        lemma_cover_sum_valid(key, 16);
    }
}

/// The position of the stencil, counted in quarter turns, in which the `n`-th
/// visit is made.
spec fn position_of(key: CardboardMatrix, n: int) -> int {
    if n < holes(key).len() {
        0
    } else if n < holes(key).len() + holes(rotated(key)).len() {
        1
    } else if n < holes(key).len() + holes(rotated(key)).len() + holes(
        rotated(rotated(key)),
    ).len() {
        2
    } else {
        3
    }
}

/// The stencil in the position counted by `turns`.
spec fn in_position(key: CardboardMatrix, turns: int) -> CardboardMatrix {
    if turns == 0 {
        key
    } else if turns == 1 {
        rotated(key)
    } else if turns == 2 {
        rotated(rotated(key))
    } else {
        rotated(rotated(rotated(key)))
    }
}

/// With a valid stencil the holes visit every cell of a block exactly once:
/// there are sixteen visits, each to a cell of the block, no cell is visited
/// twice, and none is left out.
pub proof fn lemma_visits_cover_block(key: CardboardMatrix)
    requires
        valid_stencil(key),
    ensures
        visits(key).len() == 16,
        forall|n: int| 0 <= n < 16 ==> 0 <= #[trigger] visits(key)[n] < 16,
        forall|n: int, m: int|
            0 <= n < m < 16 ==> #[trigger] visits(key)[n] != #[trigger] visits(key)[m],
        forall|k: int| 0 <= k < 16 ==> visits(key).contains(k),
{
    let k1 = rotated(key);
    let k2 = rotated(k1);
    let k3 = rotated(k2);
    let h0 = holes(key);
    let h1 = holes(k1);
    let h2 = holes(k2);
    let h3 = holes(k3);
    let v = visits(key);
    lemma_hole_total(key, 16);
    lemma_cover_sum_valid(key, 16);
    lemma_holes_before(key, 16);
    lemma_holes_before(k1, 16);
    lemma_holes_before(k2, 16);
    lemma_holes_before(k3, 16);
    lemma_holes_in_order(key, 16);
    lemma_holes_in_order(k1, 16);
    lemma_holes_in_order(k2, 16);
    lemma_holes_in_order(k3, 16);
    assert(v.len() == 16);
    let a = h0.len() as int;
    let b = a + h1.len();
    let c = b + h2.len();
    assert forall|n: int| 0 <= n < 16 implies 0 <= #[trigger] v[n] < 16 && hole_at(
        in_position(key, position_of(key, n)),
        v[n],
    ) by {
        if n < a {
            assert(v[n] == h0[n]);
        } else if n < b {
            assert(v[n] == h1[n - a]);
        } else if n < c {
            assert(v[n] == h2[n - b]);
        } else {
            assert(v[n] == h3[n - c]);
        }
    }
    assert forall|n: int, m: int| 0 <= n < m < 16 implies #[trigger] v[n] != #[trigger] v[m] by {
        assert(0 <= v[n] < 16 && hole_at(in_position(key, position_of(key, n)), v[n]));
        assert(0 <= v[m] < 16 && hole_at(in_position(key, position_of(key, m)), v[m]));
        if v[n] == v[m] {
            assert(cover_count(key, v[n]) == 1);
            if position_of(key, n) == position_of(key, m) {
                if n < a {
                    assert(v[n] == h0[n] && v[m] == h0[m]);
                } else if n < b {
                    assert(v[n] == h1[n - a] && v[m] == h1[m - a]);
                } else if n < c {
                    assert(v[n] == h2[n - b] && v[m] == h2[m - b]);
                } else {
                    assert(v[n] == h3[n - c] && v[m] == h3[m - c]);
                }
            }
        }
    }
    assert forall|k: int| 0 <= k < 16 implies v.contains(k) by {
        assert(cover_count(key, k) == 1);
        if hole_at(key, k) {
            let n = choose|n: int| 0 <= n < h0.len() && h0[n] == k;
            assert(v[n] == k);
        } else if hole_at(k1, k) {
            let n = choose|n: int| 0 <= n < h1.len() && h1[n] == k;
            assert(v[a + n] == k);
        } else if hole_at(k2, k) {
            let n = choose|n: int| 0 <= n < h2.len() && h2[n] == k;
            assert(v[b + n] == k);
        } else {
            let n = choose|n: int| 0 <= n < h3.len() && h3[n] == k;
            assert(v[c + n] == k);
        }
    }
}

/// Writing leaves a block of sixteen cells.
pub proof fn lemma_written_len(order: Seq<int>, share: Seq<char>, filler: Seq<char>)
    requires
        forall|i: int| 0 <= i < order.len() ==> 0 <= #[trigger] order[i] < 16,
    ensures
        written(order, share, filler).len() == 16,
    decreases order.len(),
{
    if order.len() > 0 {
        let fewer = order.drop_last();
        assert forall|i: int| 0 <= i < fewer.len() implies 0 <= #[trigger] fewer[i] < 16 by {
            assert(fewer[i] == order[i]);
        }
        lemma_written_len(fewer, share, filler);
    }
}

/// Where no cell is visited twice, every visit leaves its letter in its cell.
pub proof fn lemma_written_stays(order: Seq<int>, share: Seq<char>, filler: Seq<char>, n: int)
    requires
        forall|i: int| 0 <= i < order.len() ==> 0 <= #[trigger] order[i] < 16,
        forall|i: int, j: int|
            0 <= i < j < order.len() ==> #[trigger] order[i] != #[trigger] order[j],
        0 <= n < order.len(),
    ensures
        written(order, share, filler)[order[n]] == offered(share, filler, n),
    decreases order.len(),
{
    let fewer = order.drop_last();
    assert forall|i: int| 0 <= i < fewer.len() implies 0 <= #[trigger] fewer[i] < 16 by {
        assert(fewer[i] == order[i]);
    }
    lemma_written_len(fewer, share, filler);
    if n < order.len() - 1 {
        assert(fewer[n] == order[n]);
        assert(order[n] != order[order.len() - 1]);
        assert forall|i: int, j: int| 0 <= i < j < fewer.len() implies #[trigger] fewer[i]
            != #[trigger] fewer[j] by {
            assert(fewer[i] == order[i] && fewer[j] == order[j]);
        }
        lemma_written_stays(fewer, share, filler, n);
    }
}

/// Read with the valid stencil that wrote it, a block gives the sixteen
/// letters that its holes were offered, in their order.
pub proof fn lemma_block_round_trip(key: CardboardMatrix, share: Seq<char>, filler: Seq<char>)
    requires
        valid_stencil(key),
    ensures
        read_at(encrypted_block(key, share, filler), visits(key)) == Seq::new(
            16,
            |n: int| offered(share, filler, n),
        ),
{
    let order = visits(key);
    let after = written(order, share, filler);
    let block = encrypted_block(key, share, filler);
    lemma_visits_cover_block(key);
    lemma_written_len(order, share, filler);
    assert forall|n: int| 0 <= n < 16 implies letter_in(block, order[n]) == offered(
        share,
        filler,
        n,
    ) by {
        lemma_written_stays(order, share, filler, n);
        let k = order[n];
        assert(0 <= k < 16);
        assert(letter_in(block, k) == after[k]);
    }
    assert(read_at(block, order) =~= Seq::new(16, |n: int| offered(share, filler, n)));
}

/// With a valid stencil, a text and a filler of capital letters give blocks of
/// capital letters: no cell stays blank.
pub proof fn lemma_blocks_hold_letters(
    key: CardboardMatrix,
    letters: Seq<char>,
    filler: Seq<char>,
    b: int,
    k: int,
)
    requires
        valid_stencil(key),
        all_latin_capitals(letters),
        all_latin_capitals(filler),
        filler.len() == 16,
        0 <= b < block_count(letters.len()),
        0 <= k < 16,
    ensures
        is_latin_capital(letter_in(encrypted_blocks(key, letters, filler)[b], k)),
{
    let order = visits(key);
    let share = chunk(letters, b);
    let block = encrypted_block(key, share, filler);
    lemma_visits_cover_block(key);
    lemma_written_len(order, share, filler);
    assert(order.contains(k));
    let n = choose|n: int| 0 <= n < order.len() && order[n] == k;
    lemma_written_stays(order, share, filler, n);
    assert(letter_in(block, k) == written(order, share, filler)[k]);
    if n < share.len() {
        assert(share[n] == letters[16 * b + n]);
    } else {
        assert(0 <= (n - share.len()) % 16 < 16);
    }
}

/// The first `m` blocks of a text, read again, give the first `16 * m` letters
/// of the padded text.
proof fn lemma_round_trip_prefix(
    key: CardboardMatrix,
    letters: Seq<char>,
    filler: Seq<char>,
    m: nat,
)
    requires
        valid_stencil(key),
        filler.len() == 16,
        m <= block_count(letters.len()),
    ensures
        read_blocks(key, encrypted_blocks(key, letters, filler).take(m as int)) == padded(
            letters,
            filler,
        ).take(16 * (m as int)),
    decreases m,
{
    let blocks = encrypted_blocks(key, letters, filler);
    let whole = padded(letters, filler);
    if m == 0 {
        assert(blocks.take(0).len() == 0);
        assert(whole.take(0) =~= Seq::<char>::empty());
    } else {
        let b = m - 1;
        let share = chunk(letters, b);
        lemma_round_trip_prefix(key, letters, filler, b as nat);
        lemma_block_round_trip(key, share, filler);
        assert(blocks.take(m as int).drop_last() =~= blocks.take(b));
        assert(blocks.take(m as int).last() == encrypted_block(key, share, filler));
        let line = Seq::new(16, |n: int| offered(share, filler, n));
        assert forall|n: int| 0 <= n < 16 implies line[n] == whole[16 * b + n] by {
            if 16 * b + n < letters.len() {
                assert(share[n] == letters[16 * b + n]);
            }
        }
        assert(whole.take(16 * b) + line =~= whole.take(16 * (m as int)));
    }
}

/// The blocks of a text, deciphered one after the other with the valid stencil
/// that made them, give the letters of the text, followed by the letters of
/// the filler that filled up the last block: as many, from the start of the
/// filler, as the text lacks to a whole number of blocks.
pub proof fn lemma_round_trip_padded(key: CardboardMatrix, letters: Seq<char>, filler: Seq<char>)
    requires
        valid_stencil(key),
        filler.len() == 16,
    ensures
        read_blocks(key, encrypted_blocks(key, letters, filler)) == padded(letters, filler),
        padded(letters, filler).take(letters.len() as int) == letters,
        padded(letters, filler).len() == 16 * block_count(letters.len()),
{
    let blocks = encrypted_blocks(key, letters, filler);
    let whole = padded(letters, filler);
    lemma_round_trip_prefix(key, letters, filler, block_count(letters.len()));
    assert(blocks.take(blocks.len() as int) =~= blocks);
    assert(whole.take(whole.len() as int) =~= whole);
    assert(whole.take(letters.len() as int) =~= letters);
}

/// A text whose letters fill a whole number of blocks, and at least one, comes
/// back from its blocks as it was: no filler is used.
pub proof fn lemma_round_trip_full_blocks(
    key: CardboardMatrix,
    letters: Seq<char>,
    filler: Seq<char>,
)
    requires
        valid_stencil(key),
        filler.len() == 16,
        letters.len() > 0,
        letters.len() % 16 == 0,
    ensures
        read_blocks(key, encrypted_blocks(key, letters, filler)) == letters,
{
    lemma_round_trip_padded(key, letters, filler);
    assert(padded(letters, filler) =~= letters);
}

} // verus!
