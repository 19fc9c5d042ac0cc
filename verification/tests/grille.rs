use classic_ciphers::block_text::{parse_blocks, render_blocks};
use classic_ciphers::rotating_grille::{
    matrix_transpose, rot_90, CardboardMatrix, CharMatrix, Grille,
};
use classic_ciphers::stencil::{is_position_available, is_valid_key, toggle_position};
use classic_ciphers::text::filter_latin;

const KEY: CardboardMatrix = [
    [true, false, false, false],
    [false, true, false, false],
    [false, false, false, true],
    [false, false, true, false],
];

const FILLER: [char; 16] = [
    'Z', 'Y', 'X', 'W', 'V', 'U', 'T', 'S', 'R', 'Q', 'P', 'O', 'N', 'M', 'L', 'K',
];

fn decrypt_all(grille: &Grille, blocks: &Vec<CharMatrix>) -> String {
    let mut out = String::new();
    for block in blocks {
        out.push_str(&grille.decrypt(*block));
    }
    out
}

#[test]
fn test_rot90() {
    let matrix_s = [
        [true, false, false, false],
        [true, false, false, false],
        [true, false, false, false],
        [true, false, false, false],
    ];

    let res = rot_90(matrix_s);

    let matrix_e = [
        [true, true, true, true],
        [false, false, false, false],
        [false, false, false, false],
        [false, false, false, false],
    ];
    assert_eq!(res, matrix_e);
}

#[test]
fn rot90_turns_clockwise() {
    let m = [[1, 2, 3, 4], [5, 6, 7, 8], [9, 10, 11, 12], [13, 14, 15, 16]];
    let expected = [[13, 9, 5, 1], [14, 10, 6, 2], [15, 11, 7, 3], [16, 12, 8, 4]];
    assert_eq!(rot_90(m), expected);
}

#[test]
fn rot90_four_times_gives_the_matrix_back() {
    let m = [
        ['a', 'b', 'c', 'd'],
        ['e', 'f', 'g', 'h'],
        ['i', 'j', 'k', 'l'],
        ['m', 'n', 'o', 'p'],
    ];
    assert_eq!(rot_90(rot_90(rot_90(rot_90(m)))), m);
    assert_ne!(rot_90(m), m);
    assert_ne!(rot_90(rot_90(m)), m);
    assert_ne!(rot_90(rot_90(rot_90(m))), m);
    assert_eq!(rot_90(rot_90(rot_90(rot_90(KEY)))), KEY);
}

#[test]
fn transpose_swaps_rows_and_columns() {
    let m = [[1, 2, 3, 4], [5, 6, 7, 8], [9, 10, 11, 12], [13, 14, 15, 16]];
    let expected = [[1, 5, 9, 13], [2, 6, 10, 14], [3, 7, 11, 15], [4, 8, 12, 16]];
    assert_eq!(matrix_transpose(m), expected);
    assert_eq!(matrix_transpose(matrix_transpose(m)), m);
}

#[test]
fn filter_latin_keeps_letters_in_upper_case() {
    assert_eq!(
        filter_latin("Hello, World! 123"),
        vec!['H', 'E', 'L', 'L', 'O', 'W', 'O', 'R', 'L', 'D']
    );
    assert_eq!(filter_latin("az AZ @[`{"), vec!['A', 'Z', 'A', 'Z']);
    assert_eq!(filter_latin("привет é ß"), Vec::<char>::new());
    assert_eq!(filter_latin(""), Vec::<char>::new());
}

#[test]
fn encrypt_writes_through_the_holes_in_turn() {
    let grille = Grille::new(KEY);
    let blocks = grille.encrypt_with_filler("ABCDEFGHIJKLMNOP", &FILLER);
    let expected: CharMatrix = [
        ['A', 'I', 'M', 'E'],
        ['J', 'B', 'F', 'N'],
        ['G', 'O', 'K', 'C'],
        ['P', 'H', 'D', 'L'],
    ];
    assert_eq!(blocks, vec![expected]);
    assert_eq!(grille.encrypt("ABCDEFGHIJKLMNOP"), vec![expected]);
}

#[test]
fn every_cell_of_a_block_is_written_once() {
    let grille = Grille::new(KEY);
    let blocks = grille.encrypt_with_filler("abcdefghijklmnop", &['-'; 16]);
    assert_eq!(blocks.len(), 1);
    let mut seen: Vec<char> = blocks[0].iter().flatten().copied().collect();
    seen.sort();
    let all: Vec<char> = ('A'..='P').collect();
    assert_eq!(seen, all);
}

#[test]
fn decrypt_reads_through_the_holes_in_turn() {
    let grille = Grille::new(KEY);
    let block: CharMatrix = [
        ['A', 'I', 'M', 'E'],
        ['J', 'B', 'F', 'N'],
        ['G', 'O', 'K', 'C'],
        ['P', 'H', 'D', 'L'],
    ];
    assert_eq!(grille.decrypt(block), "ABCDEFGHIJKLMNOP");
}

#[test]
fn full_blocks_come_back_without_filler() {
    let grille = Grille::new(KEY);
    let text = "The quick brown fox jumps over lazy dog";
    let letters: String = filter_latin(text).into_iter().collect();
    assert_eq!(letters.len(), 32);
    let blocks = grille.encrypt_with_filler(text, &FILLER);
    assert_eq!(blocks.len(), 2);
    assert_eq!(decrypt_all(&grille, &blocks), "THEQUICKBROWNFOXJUMPSOVERLAZYDOG");
    assert_eq!(grille.decrypt_blocks(&blocks), letters);
    let random = grille.encrypt(text);
    assert_eq!(grille.decrypt_blocks(&random), letters);
}

#[test]
fn a_partial_block_is_filled_up_from_the_filler() {
    let grille = Grille::new(KEY);
    let blocks = grille.encrypt_with_filler("Attack at dawn, 5 o'clock!", &FILLER);
    assert_eq!(blocks.len(), 2);
    assert_eq!(grille.decrypt_blocks(&blocks), "ATTACKATDAWNOCLOCKZYXWVUTSRQPONM");
    let expected_last: CharMatrix = [
        ['C', 'T', 'P', 'X'],
        ['S', 'K', 'W', 'O'],
        ['V', 'N', 'R', 'Z'],
        ['M', 'U', 'Y', 'Q'],
    ];
    assert_eq!(blocks[1], expected_last);
}

#[test]
fn random_filler_is_made_of_capital_letters() {
    let grille = Grille::new(KEY);
    for _ in 0..20 {
        let blocks = grille.encrypt("secret");
        assert_eq!(blocks.len(), 1);
        let back = grille.decrypt_blocks(&blocks);
        assert_eq!(back.len(), 16);
        assert!(back.starts_with("SECRET"));
        assert!(back.chars().all(|c| c.is_ascii_uppercase()));
    }
}

#[test]
fn random_filler_varies() {
    let grille = Grille::new(KEY);
    let mut seen: Vec<char> = Vec::new();
    for _ in 0..20 {
        for block in grille.encrypt("") {
            seen.extend(block.iter().flatten());
        }
    }
    assert_eq!(seen.len(), 320);
    assert!(seen.iter().all(|c| ('A'..='Z').contains(c)));
    seen.sort();
    seen.dedup();
    assert!(seen.len() > 1);
}

#[test]
fn a_text_without_letters_gives_one_block_of_filler() {
    let grille = Grille::new(KEY);
    let blocks = grille.encrypt_with_filler("1234 !?", &FILLER);
    assert_eq!(blocks.len(), 1);
    assert_eq!(grille.decrypt(blocks[0]), "ZYXWVUTSRQPONMLK");
    let random = grille.encrypt("");
    assert_eq!(random.len(), 1);
    assert!(random[0].iter().flatten().all(|c| c.is_ascii_uppercase()));
}

#[test]
fn seventeen_letters_take_two_blocks() {
    let grille = Grille::new(KEY);
    let blocks = grille.encrypt_with_filler("ABCDEFGHIJKLMNOPQ", &FILLER);
    assert_eq!(blocks.len(), 2);
    assert_eq!(grille.decrypt_blocks(&blocks), "ABCDEFGHIJKLMNOPQZYXWVUTSRQPONML");
}

#[test]
fn deciphering_twice_gives_the_same() {
    let grille = Grille::new(KEY);
    let texts = [
        "",
        "x",
        "Grille cipher",
        "0123456789",
        "The turning grille covers every cell once",
    ];
    for text in texts {
        let dec = grille.decrypt_blocks(&grille.encrypt(text));
        let dec2 = grille.decrypt_blocks(&grille.encrypt(&dec));
        assert_eq!(dec, dec2);
    }
}

#[test]
fn a_stencil_without_holes_leaves_the_block_blank() {
    let grille = Grille::new([[false; 4]; 4]);
    let blocks = grille.encrypt_with_filler("ABC", &FILLER);
    assert_eq!(blocks, vec![[['-'; 4]; 4]]);
    assert_eq!(grille.decrypt(blocks[0]), "");
}

#[test]
fn a_stencil_of_holes_only_keeps_what_was_written_last() {
    let grille = Grille::new([[true; 4]; 4]);
    let blocks = grille.encrypt_with_filler("ABCDEFGHIJKLMNOP", &FILLER);
    // The fourth position writes the letters 48 to 63 offered: filler letters 32 to 47,
    // counted round the sixteen of them.
    let expected: CharMatrix = [
        ['Z', 'Y', 'X', 'W'],
        ['V', 'U', 'T', 'S'],
        ['R', 'Q', 'P', 'O'],
        ['N', 'M', 'L', 'K'],
    ];
    assert_eq!(blocks, vec![expected]);
    assert_eq!(grille.decrypt(blocks[0]).len(), 64);
}

#[test]
fn valid_and_invalid_stencils() {
    assert!(is_valid_key(&KEY));
    assert!(is_valid_key(&rot_90(KEY)));
    assert!(!is_valid_key(&[[false; 4]; 4]));
    assert!(!is_valid_key(&[[true; 4]; 4]));
    // Four holes that meet when the stencil is turned: the four corners.
    let corners = [
        [true, false, false, true],
        [false, false, false, false],
        [false, false, false, false],
        [true, false, false, true],
    ];
    assert!(!is_valid_key(&corners));
    // Three holes: a stencil in the making.
    let mut unfinished = KEY;
    unfinished[3][2] = false;
    assert!(!is_valid_key(&unfinished));
}

#[test]
fn cells_that_may_be_changed() {
    let empty = [[false; 4]; 4];
    for row in 0..4 {
        for col in 0..4 {
            assert!(is_position_available(&empty, row, col));
        }
    }
    let one = toggle_position(empty, 0, 0);
    assert!(one[0][0]);
    assert!(is_position_available(&one, 0, 0));
    assert!(!is_position_available(&one, 0, 3));
    assert!(!is_position_available(&one, 3, 3));
    assert!(!is_position_available(&one, 3, 0));
    assert!(is_position_available(&one, 1, 1));
    assert_eq!(toggle_position(one, 3, 3), one);
    assert_eq!(toggle_position(one, 0, 0), empty);
    let two = toggle_position(one, 1, 2);
    let mut expected = empty;
    expected[0][0] = true;
    expected[1][2] = true;
    assert_eq!(two, expected);
}

#[test]
fn a_stencil_made_cell_by_cell_becomes_valid() {
    let mut key = [[false; 4]; 4];
    for (row, col) in [(0, 0), (0, 3), (1, 1), (2, 1), (2, 3), (3, 2), (0, 1), (1, 0)] {
        key = toggle_position(key, row, col);
    }
    assert_eq!(key, KEY);
    assert!(is_valid_key(&key));
}

#[test]
fn blocks_as_text() {
    let grille = Grille::new(KEY);
    let blocks = grille.encrypt_with_filler("ABCDEFGHIJKLMNOPQ", &FILLER);
    assert_eq!(
        render_blocks(&blocks),
        "A I M E\nJ B F N\nG O K C\nP H D L\n\nQ S O W\nR Z V N\nU M Q Y\nL T X P"
    );
    assert_eq!(render_blocks(&vec![]), "");
    assert_eq!(render_blocks(&vec![[['-'; 4]; 4]]), "- - - -\n- - - -\n- - - -\n- - - -");
}

#[test]
fn blocks_from_text() {
    let grille = Grille::new(KEY);
    let blocks = grille.encrypt_with_filler("Attack at dawn, 5 o'clock!", &FILLER);
    assert_eq!(parse_blocks(&render_blocks(&blocks)), blocks);
    let expected: CharMatrix = [
        ['A', 'B', 'C', 'D'],
        ['E', 'F', 'G', 'H'],
        ['I', 'J', 'K', 'L'],
        ['M', 'N', 'O', 'P'],
    ];
    assert_eq!(parse_blocks("abcd efgh\nijkl-mnop qrs"), vec![expected]);
    assert_eq!(parse_blocks("abcdefghijklmno"), Vec::<CharMatrix>::new());
    assert_eq!(parse_blocks(""), Vec::<CharMatrix>::new());
}
