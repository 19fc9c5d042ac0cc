//! What the turning grille computes, as mathematics: the order in which the
//! holes visit the cells of a block, what is written through them and what is
//! read, and which stencils can be used.
//!
//! The sixteen cells of a block are counted along the rows, from 0 to 15: cell
//! `k` lies in row `k / 4` and column `k % 4`.

use crate::rotating_grille::{rotated, CardboardMatrix, CharMatrix};
use vstd::prelude::*;

verus! {

/// Whether the stencil has a hole at cell `k`.
pub open spec fn hole_at(stencil: CardboardMatrix, k: int) -> bool {
    stencil[k / 4][k % 4]
}

/// The letter of the block at cell `k`.
pub open spec fn letter_in(block: CharMatrix, k: int) -> char {
    block[k / 4][k % 4]
}

/// The sixteen cells of a block, along the rows.
pub open spec fn cells(block: CharMatrix) -> Seq<char> {
    Seq::new(16, |k: int| letter_in(block, k))
}

/// The block whose cells, along the rows, are `cells`.
pub open spec fn block_of(cells: Seq<char>) -> CharMatrix {
    [
        [cells[0], cells[1], cells[2], cells[3]],
        [cells[4], cells[5], cells[6], cells[7]],
        [cells[8], cells[9], cells[10], cells[11]],
        [cells[12], cells[13], cells[14], cells[15]],
    ]
}

/// The holes of the stencil among its first `k` cells, in reading order.
pub open spec fn holes_before(stencil: CardboardMatrix, k: nat) -> Seq<int>
    decreases k,
{
    if k == 0 {
        Seq::empty()
    } else if hole_at(stencil, k - 1) {
        holes_before(stencil, (k - 1) as nat).push(k - 1)
    } else {
        holes_before(stencil, (k - 1) as nat)
    }
}

/// The holes of the stencil, in reading order.
pub open spec fn holes(stencil: CardboardMatrix) -> Seq<int> {
    holes_before(stencil, 16)
}

/// The cells in the order in which the holes visit them: the holes of the
/// stencil as it lies, then those of the stencil turned once, twice and three
/// times, each time in reading order.
pub open spec fn visits(key: CardboardMatrix) -> Seq<int> {
    holes(key) + holes(rotated(key)) + holes(rotated(rotated(key))) + holes(
        rotated(rotated(rotated(key))),
    )
}

/// 1 for a hole, 0 for none.
pub open spec fn one_if(hole: bool) -> int {
    if hole {
        1
    } else {
        0
    }
}

/// The number of positions of the stencil, out of its four, in which a hole
/// lies over cell `k`.
pub open spec fn cover_count(key: CardboardMatrix, k: int) -> int {
    one_if(hole_at(key, k)) + one_if(hole_at(rotated(key), k)) + one_if(
        hole_at(rotated(rotated(key)), k),
    ) + one_if(hole_at(rotated(rotated(rotated(key))), k))
}

/// A stencil that can be used: in its four positions the holes lie over every
/// cell of the block exactly once. Four holes are not enough for that: they
/// must not meet when the stencil is turned.
pub open spec fn valid_stencil(key: CardboardMatrix) -> bool {
    forall|k: int| 0 <= k < 16 ==> #[trigger] cover_count(key, k) == 1
}

/// A stencil in the making: no cell has a hole over it in more than one of the
/// four positions.
pub open spec fn overlap_free(key: CardboardMatrix) -> bool {
    forall|k: int| 0 <= k < 16 ==> #[trigger] cover_count(key, k) <= 1
}

/// The number of blocks that a text of `letters` letters fills: one for every
/// sixteen letters begun, and one for a text without letters.
pub open spec fn block_count(letters: nat) -> nat {
    if letters == 0 {
        1
    } else {
        ((letters + 15) / 16) as nat
    }
}

/// The share of block `b` in the letters of a text: the sixteen letters from
/// `16 * b` on, or as many as are left.
pub open spec fn chunk(letters: Seq<char>, b: int) -> Seq<char> {
    if 16 * b + 16 <= letters.len() {
        letters.subrange(16 * b, 16 * b + 16)
    } else if 16 * b <= letters.len() {
        letters.subrange(16 * b, letters.len() as int)
    } else {
        Seq::empty()
    }
}

/// The letter that the `n`-th hole to visit a block is given: the block's
/// share of the text first, then the filler from its start, going round.
pub open spec fn offered(share: Seq<char>, filler: Seq<char>, n: int) -> char {
    if n < share.len() {
        share[n]
    } else {
        filler[(n - share.len()) % (filler.len() as int)]
    }
}

/// The sixteen cells of a block on which nothing has been written.
pub open spec fn blank_cells() -> Seq<char> {
    Seq::new(16, |k: int| '-')
}

/// The sixteen cells of a block after the holes have visited the cells of
/// `order`, the `n`-th visit writing the `n`-th letter offered. A cell visited
/// twice keeps what was written last.
pub open spec fn written(order: Seq<int>, share: Seq<char>, filler: Seq<char>) -> Seq<char>
    decreases order.len(),
{
    if order.len() == 0 {
        blank_cells()
    } else {
        written(order.drop_last(), share, filler).update(
            order.last(),
            offered(share, filler, order.len() - 1),
        )
    }
}

/// The block that the grille makes of one share of a text.
pub open spec fn encrypted_block(
    key: CardboardMatrix,
    share: Seq<char>,
    filler: Seq<char>,
) -> CharMatrix {
    block_of(written(visits(key), share, filler))
}

/// The blocks that the grille makes of the letters of a text.
pub open spec fn encrypted_blocks(
    key: CardboardMatrix,
    letters: Seq<char>,
    filler: Seq<char>,
) -> Seq<CharMatrix> {
    Seq::new(
        block_count(letters.len()),
        |b: int| encrypted_block(key, chunk(letters, b), filler),
    )
}

/// The letters of the block at the cells of `order`.
pub open spec fn read_at(block: CharMatrix, order: Seq<int>) -> Seq<char> {
    Seq::new(order.len(), |n: int| letter_in(block, order[n]))
}

/// What the blocks give when they are read one after the other.
pub open spec fn read_blocks(key: CardboardMatrix, blocks: Seq<CharMatrix>) -> Seq<char>
    decreases blocks.len(),
{
    if blocks.len() == 0 {
        Seq::empty()
    } else {
        read_blocks(key, blocks.drop_last()) + read_at(blocks.last(), visits(key))
    }
}

/// The letters of a text, followed by as much of the filler as fills up the
/// last block.
pub open spec fn padded(letters: Seq<char>, filler: Seq<char>) -> Seq<char> {
    letters + filler.take(16 * block_count(letters.len()) - letters.len())
}

} // verus!
