//! Blocks as text: each block as four lines of four letters with a space
//! between them, and an empty line between one block and the next.

use crate::grille_model::{block_of, cells, letter_in};
use crate::rotating_grille::{lemma_matrix_equal, CharMatrix};
use crate::text::{filter_latin, is_latin_capital, latin_kept, latin_letters, string_of};
use vstd::prelude::*;

verus! {

/// One row of a block as text: its four letters with a space between them.
pub open spec fn row_text(row: [char; 4]) -> Seq<char> {
    seq![row[0], ' ', row[1], ' ', row[2], ' ', row[3]]
}

/// One block as text: its four rows, each on a line of its own.
pub open spec fn block_text(block: CharMatrix) -> Seq<char> {
    row_text(block[0]) + seq!['\n'] + row_text(block[1]) + seq!['\n'] + row_text(block[2])
        + seq!['\n'] + row_text(block[3])
}

/// The blocks as text, with an empty line between one block and the next.
pub open spec fn blocks_text(blocks: Seq<CharMatrix>) -> Seq<char>
    decreases blocks.len(),
{
    if blocks.len() == 0 {
        Seq::empty()
    } else if blocks.len() == 1 {
        block_text(blocks[0])
    } else {
        blocks_text(blocks.drop_last()) + seq!['\n', '\n'] + block_text(blocks.last())
    }
}

/// The whole blocks that the letters fill, sixteen letters to a block along
/// its rows. Letters that are left over and do not fill a block are dropped.
pub open spec fn whole_blocks(letters: Seq<char>) -> Seq<CharMatrix> {
    Seq::new(
        (letters.len() / 16) as nat,
        |b: int| block_of(letters.subrange(16 * b, 16 * b + 16)),
    )
}

/// Appends one row of a block to `out`.
fn push_row(out: &mut Vec<char>, row: &[char; 4])
    ensures
        final(out)@ == old(out)@ + row_text(*row),
{
    let ghost before = out@;
    out.push(row[0]);
    out.push(' ');
    out.push(row[1]);
    out.push(' ');
    out.push(row[2]);
    out.push(' ');
    out.push(row[3]);
    assert(out@ =~= before + row_text(*row));
}

/// Appends one block to `out`.
fn push_block(out: &mut Vec<char>, block: &CharMatrix)
    ensures
        final(out)@ == old(out)@ + block_text(*block),
{
    let ghost before = out@;
    push_row(out, &block[0]);
    out.push('\n');
    push_row(out, &block[1]);
    out.push('\n');
    push_row(out, &block[2]);
    out.push('\n');
    push_row(out, &block[3]);
    assert(out@ =~= before + block_text(*block));
}

/// The blocks as text.
pub fn render_blocks(blocks: &Vec<CharMatrix>) -> (out: String)
    ensures
        out@ == blocks_text(blocks@),
{
    let mut out: Vec<char> = Vec::new();
    let mut b: usize = 0;
    while b < blocks.len()
        invariant
            b <= blocks.len(),
            out@ == blocks_text(blocks@.take(b as int)),
        decreases blocks.len() - b,
    {
        let ghost before = out@;
        if b > 0 {
            out.push('\n');
            out.push('\n');
        }
        push_block(&mut out, &blocks[b]);
        proof {
            let upto = blocks@.take(b + 1);
            assert(upto.drop_last() =~= blocks@.take(b as int));
            assert(upto.last() == blocks@[b as int]);
            if b > 0 {
                assert(out@ =~= before + seq!['\n', '\n'] + block_text(blocks@[b as int]));
            } else {
                assert(out@ =~= block_text(blocks@[0]));
            }
        }
        b += 1;
    }
    assert(blocks@.take(blocks@.len() as int) =~= blocks@);
    string_of(&out)
}

/// The blocks that a text holds: its Latin letters, in upper case, sixteen to
/// a block. Whatever stands between the letters is passed over, and letters
/// at the end that do not fill a block are dropped.
pub fn parse_blocks(text: &str) -> (blocks: Vec<CharMatrix>)
    ensures
        blocks@ == whole_blocks(latin_letters(text@)),
{
    let letters = filter_latin(text);
    let count = letters.len() / 16;
    let mut blocks: Vec<CharMatrix> = Vec::new();
    let mut b: usize = 0;
    while b < count
        invariant
            b <= count,
            count == letters@.len() / 16,
            letters@.len() <= usize::MAX,
            blocks@.len() == b,
            forall|k: int|
                0 <= k < b ==> blocks@[k] == block_of(letters@.subrange(16 * k, 16 * k + 16)),
        decreases count - b,
    {
        let s = 16 * b;
        let block: CharMatrix = [
            [letters[s], letters[s + 1], letters[s + 2], letters[s + 3]],
            [letters[s + 4], letters[s + 5], letters[s + 6], letters[s + 7]],
            [letters[s + 8], letters[s + 9], letters[s + 10], letters[s + 11]],
            [letters[s + 12], letters[s + 13], letters[s + 14], letters[s + 15]],
        ];
        proof {
            lemma_matrix_equal(
                block,
                block_of(letters@.subrange(16 * b, 16 * b + 16)),
            );
        }
        blocks.push(block);
        b += 1;
    }
    assert(blocks@ =~= whole_blocks(letters@));
    blocks
}

/// Every cell of the block holds a capital Latin letter.
pub open spec fn holds_letters(block: CharMatrix) -> bool {
    forall|k: int| 0 <= k < 16 ==> is_latin_capital(#[trigger] letter_in(block, k))
}

/// The cells of the blocks, one block after the other.
pub open spec fn all_cells(blocks: Seq<CharMatrix>) -> Seq<char>
    decreases blocks.len(),
{
    if blocks.len() == 0 {
        Seq::empty()
    } else {
        all_cells(blocks.drop_last()) + cells(blocks.last())
    }
}

/// The letters of two texts put together are the letters of the one followed
/// by the letters of the other.
pub proof fn lemma_latin_letters_add(a: Seq<char>, b: Seq<char>)
    ensures
        latin_letters(a + b) == latin_letters(a) + latin_letters(b),
    decreases b.len(),
{
    if b.len() == 0 {
        assert(a + b =~= a);
        assert(latin_letters(a) + latin_letters(b) =~= latin_letters(a));
    } else {
        lemma_latin_letters_add(a, b.drop_last());
        assert((a + b).drop_last() =~= a + b.drop_last());
        assert((a + b).last() == b.last());
        match latin_kept(b.last()) {
            Some(c) => {
                assert(latin_letters(a + b) =~= latin_letters(a) + latin_letters(b));
            },
            None => {},
        }
    }
}

/// A text of one character holds one letter or none.
proof fn lemma_latin_letters_one(c: char)
    ensures
        latin_letters(seq![c]) == match latin_kept(c) {
            Some(l) => seq![l],
            None => Seq::<char>::empty(),
        },
{
    Seq::lemma_filter_map_singleton(c, |c: char| latin_kept(c));
}

/// The text of a row of capital letters holds these four letters.
proof fn lemma_row_letters(row: [char; 4])
    requires
        forall|j: int| 0 <= j < 4 ==> is_latin_capital(#[trigger] row[j]),
    ensures
        latin_letters(row_text(row)) == seq![row[0], row[1], row[2], row[3]],
{
    let gap = seq![' '];
    assert(is_latin_capital(row[0]) && is_latin_capital(row[1]) && is_latin_capital(row[2])
        && is_latin_capital(row[3]));
    lemma_latin_letters_one(' ');
    lemma_latin_letters_one(row[0]);
    lemma_latin_letters_one(row[1]);
    lemma_latin_letters_one(row[2]);
    lemma_latin_letters_one(row[3]);
    let t1 = seq![row[0]] + gap;
    let t2 = t1 + seq![row[1]];
    let t3 = t2 + gap;
    let t4 = t3 + seq![row[2]];
    let t5 = t4 + gap;
    let t6 = t5 + seq![row[3]];
    assert(t6 =~= row_text(row));
    lemma_latin_letters_add(seq![row[0]], gap);
    lemma_latin_letters_add(t1, seq![row[1]]);
    lemma_latin_letters_add(t2, gap);
    lemma_latin_letters_add(t3, seq![row[2]]);
    lemma_latin_letters_add(t4, gap);
    lemma_latin_letters_add(t5, seq![row[3]]);
    assert(latin_letters(t6) =~= seq![row[0], row[1], row[2], row[3]]);
}

/// The text of a block of capital letters holds the cells of the block.
proof fn lemma_block_letters(block: CharMatrix)
    requires
        holds_letters(block),
    ensures
        latin_letters(block_text(block)) == cells(block),
{
    let line = seq!['\n'];
    assert forall|i: int, j: int| 0 <= i < 4 && 0 <= j < 4 implies is_latin_capital(
        #[trigger] block[i][j],
    ) by {
        assert(is_latin_capital(letter_in(block, 4 * i + j)));
    }
    lemma_latin_letters_one('\n');
    lemma_row_letters(block[0]);
    lemma_row_letters(block[1]);
    lemma_row_letters(block[2]);
    lemma_row_letters(block[3]);
    let t1 = row_text(block[0]) + line;
    let t2 = t1 + row_text(block[1]);
    let t3 = t2 + line;
    let t4 = t3 + row_text(block[2]);
    let t5 = t4 + line;
    let t6 = t5 + row_text(block[3]);
    assert(t6 == block_text(block));
    lemma_latin_letters_add(row_text(block[0]), line);
    lemma_latin_letters_add(t1, row_text(block[1]));
    lemma_latin_letters_add(t2, line);
    lemma_latin_letters_add(t3, row_text(block[2]));
    lemma_latin_letters_add(t4, line);
    lemma_latin_letters_add(t5, row_text(block[3]));
    assert(latin_letters(t6) =~= cells(block));
}

/// The text of blocks of capital letters holds the cells of the blocks, one
/// block after the other.
pub proof fn lemma_text_holds_cells(blocks: Seq<CharMatrix>)
    requires
        forall|b: int| 0 <= b < blocks.len() ==> holds_letters(#[trigger] blocks[b]),
    ensures
        latin_letters(blocks_text(blocks)) == all_cells(blocks),
        all_cells(blocks).len() == 16 * blocks.len(),
    decreases blocks.len(),
{
    if blocks.len() == 0 {
        assert(latin_letters(Seq::<char>::empty()) =~= Seq::<char>::empty());
    } else if blocks.len() == 1 {
        lemma_block_letters(blocks[0]);
        assert(all_cells(blocks.drop_last()) =~= Seq::<char>::empty());
        assert(all_cells(blocks) =~= cells(blocks[0]));
    } else {
        let fewer = blocks.drop_last();
        assert forall|b: int| 0 <= b < fewer.len() implies holds_letters(#[trigger] fewer[b]) by {
            assert(fewer[b] == blocks[b]);
        }
        lemma_text_holds_cells(fewer);
        lemma_block_letters(blocks.last());
        lemma_latin_letters_one('\n');
        lemma_latin_letters_add(seq!['\n'], seq!['\n']);
        assert(seq!['\n'] + seq!['\n'] =~= seq!['\n', '\n']);
        lemma_latin_letters_add(blocks_text(fewer), seq!['\n', '\n']);
        lemma_latin_letters_add(
            blocks_text(fewer) + seq!['\n', '\n'],
            block_text(blocks.last()),
        );
        assert(latin_letters(blocks_text(blocks)) =~= all_cells(blocks));
    }
}

/// The cells of block `b` stand at the places from `16 * b` on.
proof fn lemma_cells_of_block(blocks: Seq<CharMatrix>, b: int)
    requires
        0 <= b < blocks.len(),
    ensures
        all_cells(blocks).len() == 16 * blocks.len(),
        all_cells(blocks).subrange(16 * b, 16 * b + 16) == cells(blocks[b]),
    decreases blocks.len(),
{
    let fewer = blocks.drop_last();
    lemma_cells_len(fewer);
    if b < blocks.len() - 1 {
        lemma_cells_of_block(fewer, b);
        assert(fewer[b] == blocks[b]);
        assert(all_cells(blocks).subrange(16 * b, 16 * b + 16) =~= all_cells(fewer).subrange(
            16 * b,
            16 * b + 16,
        ));
    } else {
        assert(all_cells(blocks).subrange(16 * b, 16 * b + 16) =~= cells(blocks[b]));
    }
}

/// Every block has sixteen cells.
proof fn lemma_cells_len(blocks: Seq<CharMatrix>)
    ensures
        all_cells(blocks).len() == 16 * blocks.len(),
    decreases blocks.len(),
{
    if blocks.len() > 0 {
        lemma_cells_len(blocks.drop_last());
    }
}

/// Blocks of capital letters, written as text and read from the text again,
/// are the same blocks.
pub proof fn lemma_text_round_trip(blocks: Seq<CharMatrix>)
    requires
        forall|b: int| 0 <= b < blocks.len() ==> holds_letters(#[trigger] blocks[b]),
    ensures
        whole_blocks(latin_letters(blocks_text(blocks))) == blocks,
{
    lemma_text_holds_cells(blocks);
    let letters = all_cells(blocks);
    let back = whole_blocks(letters);
    assert(back.len() == blocks.len());
    assert forall|b: int| 0 <= b < blocks.len() implies back[b] == blocks[b] by {
        lemma_cells_of_block(blocks, b);
        lemma_matrix_equal(block_of(cells(blocks[b])), blocks[b]);
    }
    assert(back =~= blocks);
}

} // verus!
