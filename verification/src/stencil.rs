//! Making a stencil: which stencils can be used, and which cells of a stencil
//! in the making may still be changed.

use crate::grille_model::{cover_count, one_if, overlap_free, valid_stencil};
use crate::rotating_grille::{lemma_rotated_cell, rot_90, rotated, CardboardMatrix};
use vstd::prelude::*;

verus! {

/// A cell that may be changed: it is a hole, which can be closed again, or no
/// hole of the stencil comes to lie over it when the stencil is turned, so that
/// it can be cut out.
pub open spec fn position_available(key: CardboardMatrix, row: int, col: int) -> bool {
    key[row][col] || !(rotated(key)[row][col] || rotated(rotated(key))[row][col] || rotated(
        rotated(rotated(key)),
    )[row][col])
}

/// Cell `(i, j)` of the stencil after the cell `(row, col)` was changed from
/// hole to no hole or back.
pub open spec fn cell_after_flip(key: CardboardMatrix, row: int, col: int, i: int, j: int) -> bool {
    if i == row && j == col {
        !key[i][j]
    } else {
        key[i][j]
    }
}

/// `after` is the stencil `key` with the cell `(row, col)` changed from hole
/// to no hole or back, and every other cell as it was.
pub open spec fn is_flipped(
    key: CardboardMatrix,
    after: CardboardMatrix,
    row: int,
    col: int,
) -> bool {
    forall|i: int, j: int|
        0 <= i < 4 && 0 <= j < 4 ==> #[trigger] after[i][j] == cell_after_flip(
            key,
            row,
            col,
            i,
            j,
        )
}

/// Whether the stencil can be used: whether its holes, in its four positions,
/// lie over every cell exactly once.
pub fn is_valid_key(key: &CardboardMatrix) -> (valid: bool)
    ensures
        valid == valid_stencil(*key),
{
    let once = rot_90(*key);
    let twice = rot_90(once);
    let thrice = rot_90(twice);
    let mut i: usize = 0;
    while i < 4
        invariant
            i <= 4,
            once == rotated(*key),
            twice == rotated(once),
            thrice == rotated(twice),
            forall|k: int| 0 <= k < 4 * i ==> #[trigger] cover_count(*key, k) == 1,
        decreases 4 - i,
    {
        let mut j: usize = 0;
        while j < 4
            invariant
                i < 4,
                j <= 4,
                once == rotated(*key),
                twice == rotated(once),
                thrice == rotated(twice),
                forall|k: int| 0 <= k < 4 * i + j ==> #[trigger] cover_count(*key, k) == 1,
            decreases 4 - j,
        {
            let mut covers: u8 = 0;
            if key[i][j] {
                covers += 1;
            }
            if once[i][j] {
                covers += 1;
            }
            if twice[i][j] {
                covers += 1;
            }
            if thrice[i][j] {
                covers += 1;
            }
            assert(covers == cover_count(*key, 4 * i + j));
            if covers != 1 {
                return false;
            }
            j += 1;
        }
        i += 1;
    }
    true
}

/// Whether the cell `(row, col)` of a stencil in the making may be changed.
pub fn is_position_available(key: &CardboardMatrix, row: usize, col: usize) -> (free: bool)
    requires
        row < 4,
        col < 4,
    ensures
        free == position_available(*key, row as int, col as int),
{
    let once = rot_90(*key);
    let twice = rot_90(once);
    let thrice = rot_90(twice);
    key[row][col] || !(once[row][col] || twice[row][col] || thrice[row][col])
}

/// Changes the cell `(row, col)` from hole to no hole or back, if it may be
/// changed, and leaves the stencil as it is if not.
pub fn toggle_position(key: CardboardMatrix, row: usize, col: usize) -> (after: CardboardMatrix)
    requires
        row < 4,
        col < 4,
    ensures
        position_available(key, row as int, col as int) ==> is_flipped(
            key,
            after,
            row as int,
            col as int,
        ),
        !position_available(key, row as int, col as int) ==> after == key,
{
    let mut after = key;
    if is_position_available(&key, row, col) {
        after[row][col] = !key[row][col];
    }
    after
}

/// The positions that lay a hole over cell `(i, j)`, counted by the cells of
/// the stencil as it lies: the cell itself and the three that come to lie on
/// it when the stencil is turned.
proof fn lemma_cover_cells(key: CardboardMatrix, i: int, j: int)
    requires
        0 <= i < 4,
        0 <= j < 4,
    ensures
        cover_count(key, 4 * i + j) == one_if(key[i][j]) + one_if(key[3 - j][i]) + one_if(
            key[3 - i][3 - j],
        ) + one_if(key[j][3 - i]),
{
    let k = 4 * i + j;
    assert(k / 4 == i && k % 4 == j);
    let once = rotated(key);
    let twice = rotated(once);
    let thrice = rotated(twice);
    lemma_rotated_cell(key, i, j);
    lemma_rotated_cell(once, i, j);
    lemma_rotated_cell(key, 3 - j, i);
    lemma_rotated_cell(twice, i, j);
    lemma_rotated_cell(once, 3 - j, i);
    lemma_rotated_cell(key, 3 - i, 3 - j);
}

/// Whether a cell may be changed, told by the cells of the stencil as it lies.
proof fn lemma_available_cells(key: CardboardMatrix, row: int, col: int)
    requires
        0 <= row < 4,
        0 <= col < 4,
    ensures
        position_available(key, row, col) == (key[row][col] || !(key[3 - col][row] || key[3
            - row][3 - col] || key[col][3 - row])),
{
    let once = rotated(key);
    let twice = rotated(once);
    lemma_rotated_cell(key, row, col);
    lemma_rotated_cell(once, row, col);
    lemma_rotated_cell(key, 3 - col, row);
    lemma_rotated_cell(twice, row, col);
    lemma_rotated_cell(once, 3 - col, row);
    lemma_rotated_cell(key, 3 - row, 3 - col);
}

/// The four cells that come to lie on `(i, j)` hold at most one hole after the
/// change, if they did before and the changed cell was free to be changed.
proof fn lemma_toggle_one_cell(
    key: CardboardMatrix,
    after: CardboardMatrix,
    row: int,
    col: int,
    i: int,
    j: int,
)
    requires
        0 <= row < 4,
        0 <= col < 4,
        0 <= i < 4,
        0 <= j < 4,
        is_flipped(key, after, row, col),
        key[row][col] || !(key[3 - col][row] || key[3 - row][3 - col] || key[col][3 - row]),
        one_if(key[i][j]) + one_if(key[3 - j][i]) + one_if(key[3 - i][3 - j]) + one_if(
            key[j][3 - i],
        ) <= 1,
    ensures
        one_if(after[i][j]) + one_if(after[3 - j][i]) + one_if(after[3 - i][3 - j]) + one_if(
            after[j][3 - i],
        ) <= 1,
{
    assert(after[i][j] == cell_after_flip(key, row, col, i, j));
    assert(after[3 - j][i] == cell_after_flip(key, row, col, 3 - j, i));
    assert(after[3 - i][3 - j] == cell_after_flip(key, row, col, 3 - i, 3 - j));
    assert(after[j][3 - i] == cell_after_flip(key, row, col, j, 3 - i));
}

/// A stencil in which no two holes meet stays so when a cell that may be
/// changed is changed.
pub proof fn lemma_toggle_keeps_overlap_free(
    key: CardboardMatrix,
    after: CardboardMatrix,
    row: int,
    col: int,
)
    requires
        overlap_free(key),
        0 <= row < 4,
        0 <= col < 4,
        position_available(key, row, col),
        is_flipped(key, after, row, col),
    ensures
        overlap_free(after),
{
    lemma_available_cells(key, row, col);
    assert forall|k: int| 0 <= k < 16 implies #[trigger] cover_count(after, k) <= 1 by {
        let i = k / 4;
        let j = k % 4;
        assert(k == 4 * i + j);
        assert(cover_count(key, k) <= 1);
        lemma_cover_cells(key, i, j);
        lemma_cover_cells(after, i, j);
        lemma_toggle_one_cell(key, after, row, col, i, j);
    }
}

} // verus!
