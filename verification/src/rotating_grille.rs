//! The turning grille: a 4×4 stencil that is laid on a block four times, turned
//! a quarter each time, so that its holes visit every cell of the block once.

use crate::grille_model::{
    blank_cells, block_count, block_of, cells, chunk, encrypted_block, encrypted_blocks, holes,
    holes_before, offered, read_at, read_blocks, visits, written,
};
use crate::text::{all_latin_capitals, filter_latin, is_latin_capital, latin_letters, string_of};
use rand::Rng;
use std::fmt::Debug;
use vstd::prelude::*;

verus! {

/// The stencil: `true` marks a hole.
pub type CardboardMatrix = [[bool; 4]; 4];

/// One block of ciphertext.
pub type CharMatrix = [[char; 4]; 4];

/// The matrix whose cell `(i, j)` is cell `(j, i)` of `m`.
pub open spec fn transposed<T>(m: [[T; 4]; 4]) -> [[T; 4]; 4] {
    [
        [m[0][0], m[1][0], m[2][0], m[3][0]],
        [m[0][1], m[1][1], m[2][1], m[3][1]],
        [m[0][2], m[1][2], m[2][2], m[3][2]],
        [m[0][3], m[1][3], m[2][3], m[3][3]],
    ]
}

/// The matrix `m` turned a quarter clockwise: its first column, read upwards,
/// becomes the first row.
pub open spec fn rotated<T>(m: [[T; 4]; 4]) -> [[T; 4]; 4] {
    [
        [m[3][0], m[2][0], m[1][0], m[0][0]],
        [m[3][1], m[2][1], m[1][1], m[0][1]],
        [m[3][2], m[2][2], m[1][2], m[0][2]],
        [m[3][3], m[2][3], m[1][3], m[0][3]],
    ]
}

/// `row` read backwards.
pub open spec fn reversed_row<T>(row: [T; 4]) -> [T; 4] {
    [row[3], row[2], row[1], row[0]]
}

/// Two matrices are the same as soon as their sixteen cells agree.
pub proof fn lemma_matrix_equal<T>(a: [[T; 4]; 4], b: [[T; 4]; 4])
    requires
        forall|i: int, j: int| 0 <= i < 4 && 0 <= j < 4 ==> a[i][j] == b[i][j],
    ensures
        a == b,
{
    assert forall|i: int| 0 <= i < 4 implies a[i] == b[i] by {
        assert(forall|j: int| 0 <= j < 4 ==> a[i][j] == b[i][j]);
        assert(a[i] =~= b[i]);
    }
    assert(a =~= b);
}

/// Cell `(i, j)` of the turned matrix is cell `(3 - j, i)` of the matrix.
pub proof fn lemma_rotated_cell<T>(m: [[T; 4]; 4], i: int, j: int)
    requires
        0 <= i < 4,
        0 <= j < 4,
    ensures
        rotated(m)[i][j] == m[3 - j][i],
{
}

/// A quarter turn made four times brings every matrix back to itself.
pub proof fn lemma_rotation_order_four<T>(m: [[T; 4]; 4])
    ensures
        rotated(rotated(rotated(rotated(m)))) == m,
{
    lemma_matrix_equal(rotated(rotated(rotated(rotated(m)))), m);
}

/// Rows become columns and columns rows.
pub fn matrix_transpose<T: Copy + Debug>(m: [[T; 4]; 4]) -> (t: [[T; 4]; 4])
    ensures
        t == transposed(m),
        forall|i: int, j: int| 0 <= i < 4 && 0 <= j < 4 ==> t[i][j] == m[j][i],
{
    let mut t = m;
    let mut i: usize = 0;
    while i < 4
        invariant
            i <= 4,
            forall|a: int, b: int| 0 <= a < i && 0 <= b < 4 ==> t[a][b] == m[b][a],
        decreases 4 - i,
    {
        let mut j: usize = 0;
        while j < 4
            invariant
                i < 4,
                j <= 4,
                forall|a: int, b: int| 0 <= a < i && 0 <= b < 4 ==> t[a][b] == m[b][a],
                forall|b: int| 0 <= b < j ==> t[i as int][b] == m[b][i as int],
            decreases 4 - j,
        {
            t[i][j] = m[j][i];
            j += 1;
        }
        i += 1;
    }
    proof {
        lemma_matrix_equal(t, transposed(m));
    }
    t
}

/// Turns `m` a quarter clockwise: transposes it, then reverses each row.
pub fn rot_90<T: Copy + Debug>(m: [[T; 4]; 4]) -> (r: [[T; 4]; 4])
    ensures
        r == rotated(m),
        forall|i: int, j: int| 0 <= i < 4 && 0 <= j < 4 ==> r[i][j] == m[3 - j][i],
{
    let mut r = matrix_transpose(m);
    let ghost t = r;
    let mut i: usize = 0;
    while i < 4
        invariant
            i <= 4,
            forall|a: int| 0 <= a < i ==> r[a] == reversed_row(t[a]),
            forall|a: int| i <= a < 4 ==> r[a] == t[a],
        decreases 4 - i,
    {
        let row = r[i];
        r[i] = [row[3], row[2], row[1], row[0]];
        i += 1;
    }
    proof {
        lemma_matrix_equal(r, rotated(m));
    }
    r
}

/// The stencil after `turns` quarter turns.
spec fn turned(key: CardboardMatrix, turns: nat) -> CardboardMatrix
    decreases turns,
{
    if turns == 0 {
        key
    } else {
        rotated(turned(key, (turns - 1) as nat))
    }
}

/// The visits that the holes make in the first `turns` positions of the
/// stencil.
spec fn visits_in(key: CardboardMatrix, turns: nat) -> Seq<int>
    decreases turns,
{
    if turns == 0 {
        Seq::empty()
    } else {
        visits_in(key, (turns - 1) as nat) + holes(turned(key, (turns - 1) as nat))
    }
}

/// After four positions the holes have made all their visits.
proof fn lemma_four_positions(key: CardboardMatrix)
    ensures
        visits_in(key, 4) == visits(key),
{
    reveal_with_fuel(turned, 4);
    reveal_with_fuel(visits_in, 5);
    assert(visits_in(key, 4) =~= visits(key));
}

/// There are no more holes among the first `k` cells than cells, and each of
/// them is one of these cells.
pub proof fn lemma_holes_before(stencil: CardboardMatrix, k: nat)
    ensures
        holes_before(stencil, k).len() <= k,
        forall|n: int|
            0 <= n < holes_before(stencil, k).len() ==> 0 <= #[trigger] holes_before(stencil, k)[n]
                < k,
    decreases k,
{
    if k > 0 {
        lemma_holes_before(stencil, (k - 1) as nat);
    }
}

/// `Rng::gen_range` of rand, called on the thread's generator for the
/// characters from `low` to `high`. Which character comes is left open; it is
/// one of these. An empty range, on which `gen_range` panics, is kept out.
/// The generator itself gives up where the system has no randomness to seed
/// it with.
#[verifier::external_body]
fn random_char_between(low: char, high: char) -> (c: char)
    requires
        low <= high,
    ensures
        low <= c && c <= high,
{
    rand::thread_rng().gen_range(low..=high)
}

/// The letter for the `n`-th hole that visits block `b`.
fn letter_for(letters: &Vec<char>, b: usize, filler: &[char; 16], n: usize) -> (c: char)
    requires
        16 * b <= letters.len(),
    ensures
        c == offered(chunk(letters@, b as int), filler@, n as int),
{
    let start = 16 * b;
    let left = letters.len() - start;
    let share = if left < 16 {
        left
    } else {
        16
    };
    if n < share {
        letters[start + n]
    } else {
        filler[(n - share) % 16]
    }
}

/// Lays the stencil on the block once and writes a letter through each hole, in
/// reading order. `n` counts the visits made to the block, `before` tells
/// their cells.
fn write_pass(
    stencil: &CardboardMatrix,
    block: CharMatrix,
    n: usize,
    letters: &Vec<char>,
    b: usize,
    filler: &[char; 16],
    Ghost(before): Ghost<Seq<int>>,
) -> (after: (CharMatrix, usize))
    requires
        16 * b <= letters.len(),
        n == before.len(),
        n <= 48,
        cells(block) == written(before, chunk(letters@, b as int), filler@),
    ensures
        after.1 == n + holes(*stencil).len(),
        cells(after.0) == written(before + holes(*stencil), chunk(letters@, b as int), filler@),
{
    let ghost share = chunk(letters@, b as int);
    let mut block = block;
    let mut n = n;
    let mut i: usize = 0;
    assert(before + holes_before(*stencil, 0) =~= before);
    while i < 4
        invariant
            i <= 4,
            16 * b <= letters.len(),
            share == chunk(letters@, b as int),
            n == before.len() + holes_before(*stencil, (4 * i) as nat).len(),
            before.len() <= 48,
            cells(block) == written(
                before + holes_before(*stencil, (4 * i) as nat),
                share,
                filler@,
            ),
        decreases 4 - i,
    {
        let mut j: usize = 0;
        while j < 4
            invariant
                i < 4,
                j <= 4,
                16 * b <= letters.len(),
                share == chunk(letters@, b as int),
                n == before.len() + holes_before(*stencil, (4 * i + j) as nat).len(),
                before.len() <= 48,
                cells(block) == written(
                    before + holes_before(*stencil, (4 * i + j) as nat),
                    share,
                    filler@,
                ),
            decreases 4 - j,
        {
            let ghost k = (4 * i + j) as int;
            let ghost seen = before + holes_before(*stencil, k as nat);
            if stencil[i][j] {
                let ch = letter_for(letters, b, filler, n);
                let ghost was = block;
                block[i][j] = ch;
                proof {
                    lemma_holes_before(*stencil, k as nat);
                    let now = before + holes_before(*stencil, (k + 1) as nat);
                    assert(now =~= seen.push(k));
                    assert(now.drop_last() =~= seen);
                    assert(cells(block) =~= cells(was).update(k, ch));
                }
                n += 1;
            }
            j += 1;
        }
        i += 1;
    }
    (block, n)
}

/// Appends to `out` the letters of `block` that show through the holes of
/// `stencil`, in reading order.
fn read_pass(stencil: &CardboardMatrix, block: &CharMatrix, out: &mut Vec<char>)
    ensures
        final(out)@ == old(out)@ + read_at(*block, holes(*stencil)),
{
    let ghost before = out@;
    let mut i: usize = 0;
    while i < 4
        invariant
            i <= 4,
            out@ == before + read_at(*block, holes_before(*stencil, (4 * i) as nat)),
        decreases 4 - i,
    {
        let mut j: usize = 0;
        while j < 4
            invariant
                i < 4,
                j <= 4,
                out@ == before + read_at(*block, holes_before(*stencil, (4 * i + j) as nat)),
            decreases 4 - j,
        {
            let ghost seen = holes_before(*stencil, (4 * i + j) as nat);
            if stencil[i][j] {
                out.push(block[i][j]);
                assert(read_at(*block, seen.push(4 * i + j)) =~= read_at(*block, seen).push(
                    block[i as int][j as int],
                ));
            }
            j += 1;
        }
        i += 1;
    }
}

/// The grille with its stencil. Any stencil makes a grille; only a valid one
/// makes a cipher that can be undone.
pub struct Grille {
    matrix: CardboardMatrix,
}

impl View for Grille {
    type V = CardboardMatrix;

    closed spec fn view(&self) -> CardboardMatrix {
        self.matrix
    }
}

impl Grille {
    /// The grille with the stencil `matrix`, whatever stencil it is.
    pub fn new(matrix: CardboardMatrix) -> (grille: Self)
        ensures
            grille@ == matrix,
    {
        Grille { matrix }
    }

    /// The block for share `b` of the letters.
    fn encrypt_block(&self, letters: &Vec<char>, b: usize, filler: &[char; 16]) -> (block:
        CharMatrix)
        requires
            16 * b <= letters.len(),
        ensures
            block == encrypted_block(self@, chunk(letters@, b as int), filler@),
    {
        let ghost share = chunk(letters@, b as int);
        let mut char_matrix: CharMatrix = [['-'; 4]; 4];
        let mut cardboard_cutout = self.matrix;
        let mut n: usize = 0;
        let mut rotation: usize = 0;
        assert(cells(char_matrix) =~= blank_cells());
        while rotation < 4
            invariant
                rotation <= 4,
                16 * b <= letters.len(),
                share == chunk(letters@, b as int),
                cardboard_cutout == turned(self@, rotation as nat),
                n <= 16 * rotation,
                n == visits_in(self@, rotation as nat).len(),
                cells(char_matrix) == written(visits_in(self@, rotation as nat), share, filler@),
            decreases 4 - rotation,
        {
            proof {
                lemma_holes_before(cardboard_cutout, 16);
            }
            let (block, count) = write_pass(
                &cardboard_cutout,
                char_matrix,
                n,
                letters,
                b,
                filler,
                Ghost(visits_in(self@, rotation as nat)),
            );
            char_matrix = block;
            n = count;
            cardboard_cutout = rot_90(cardboard_cutout);
            rotation += 1;
        }
        proof {
            lemma_four_positions(self@);
            lemma_matrix_equal(block_of(cells(char_matrix)), char_matrix);
        }
        char_matrix
    }

    /// The blocks for the Latin letters of `text`, one for every sixteen
    /// letters, and one for a text without letters. Where the letters run out
    /// before a block is full, the holes that are left take the letters of
    /// `filler`, from its start.
    pub fn encrypt_with_filler(&self, text: &str, filler: &[char; 16]) -> (blocks: Vec<CharMatrix>)
        ensures
            blocks@ == encrypted_blocks(self@, latin_letters(text@), filler@),
    {
        let letters = filter_latin(text);
        let count = if letters.len() == 0 {
            1
        } else {
            (letters.len() - 1) / 16 + 1
        };
        let mut blocks: Vec<CharMatrix> = Vec::new();
        let mut b: usize = 0;
        while b < count
            invariant
                b <= count,
                count == block_count(letters@.len()),
                blocks@.len() == b,
                forall|k: int|
                    0 <= k < b ==> blocks@[k] == encrypted_block(
                        self@,
                        chunk(letters@, k),
                        filler@,
                    ),
            decreases count - b,
        {
            blocks.push(self.encrypt_block(&letters, b, filler));
            b += 1;
        }
        assert(blocks@ =~= encrypted_blocks(self@, letters@, filler@));
        blocks
    }

    /// The blocks for the Latin letters of `text`, the last one filled up with
    /// letters drawn at random: the blocks that some filler of sixteen capital
    /// letters gives.
    pub fn encrypt(&self, text: &str) -> (blocks: Vec<CharMatrix>)
        ensures
            exists|filler: Seq<char>|
                filler.len() == 16 && all_latin_capitals(filler) && blocks@ == encrypted_blocks(
                    self@,
                    latin_letters(text@),
                    filler,
                ),
    {
        let mut filler: [char; 16] = ['A'; 16];
        let mut i: usize = 0;
        while i < 16
            invariant
                i <= 16,
                forall|k: int| 0 <= k < i ==> is_latin_capital(#[trigger] filler@[k]),
            decreases 16 - i,
        {
            filler[i] = random_char_between('A', 'Z');
            i += 1;
        }
        let blocks = self.encrypt_with_filler(text, &filler);
        assert(filler@.len() == 16 && all_latin_capitals(filler@));
        blocks
    }

    /// Appends to `out` the letters of one block in the order in which they
    /// were written.
    fn read_block(&self, text: CharMatrix, out: &mut Vec<char>)
        ensures
            final(out)@ == old(out)@ + read_at(text, visits(self@)),
    {
        let ghost before = out@;
        let mut cardboard_cutout = self.matrix;
        let mut rotation: usize = 0;
        assert(out@ =~= before + read_at(text, visits_in(self@, 0)));
        while rotation < 4
            invariant
                rotation <= 4,
                cardboard_cutout == turned(self@, rotation as nat),
                out@ == before + read_at(text, visits_in(self@, rotation as nat)),
            decreases 4 - rotation,
        {
            let ghost past = visits_in(self@, rotation as nat);
            let ghost here = holes(cardboard_cutout);
            read_pass(&cardboard_cutout, &text, out);
            assert(out@ =~= before + read_at(text, past + here));
            cardboard_cutout = rot_90(cardboard_cutout);
            rotation += 1;
        }
        proof {
            lemma_four_positions(self@);
        }
    }

    /// The letters of one block in the order in which they were written: what
    /// shows through the holes of the stencil as it lies, then turned once,
    /// twice and three times.
    pub fn decrypt(&self, text: CharMatrix) -> (out: String)
        ensures
            out@ == read_at(text, visits(self@)),
    {
        let mut result: Vec<char> = Vec::new();
        self.read_block(text, &mut result);
        assert(result@ =~= read_at(text, visits(self@)));
        string_of(&result)
    }

    /// The letters of the blocks, read one block after the other.
    pub fn decrypt_blocks(&self, blocks: &Vec<CharMatrix>) -> (out: String)
        ensures
            out@ == read_blocks(self@, blocks@),
    {
        let mut result: Vec<char> = Vec::new();
        let mut b: usize = 0;
        while b < blocks.len()
            invariant
                b <= blocks.len(),
                result@ == read_blocks(self@, blocks@.take(b as int)),
            decreases blocks.len() - b,
        {
            self.read_block(blocks[b], &mut result);
            proof {
                assert(blocks@.take(b + 1).drop_last() =~= blocks@.take(b as int));
            }
            b += 1;
        }
        assert(blocks@.take(blocks@.len() as int) =~= blocks@);
        string_of(&result)
    }
}

} // verus!
