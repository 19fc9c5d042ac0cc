//! What holds of the alphabet and of the progressive Vigenère cipher: letters
//! and places answer each other, deciphering undoes enciphering, and the shift
//! grows from one pass through the key to the next.

use crate::vigener_progressive::{
    all_russian, decrypted, encrypted, is_russian_letter, letter_at, ordinal_of, rotated_letter,
    russian_letters, shift_at, valid_key,
};
use vstd::arithmetic::div_mod::lemma_fundamental_div_mod;
use vstd::arithmetic::div_mod::lemma_fundamental_div_mod_converse;
use vstd::arithmetic::div_mod::lemma_mod_pos_bound;
use vstd::prelude::*;

verus! {

/// Every letter is found again at its own place, and every place below 33
/// holds a letter that names that place: the places are the alphabet's letters
/// counted once each.
pub proof fn lemma_alphabet_round_trip()
    ensures
        forall|c: char|
            is_russian_letter(c) ==> 0 <= #[trigger] ordinal_of(c) < 33 && letter_at(
                ordinal_of(c),
            ) == c,
        forall|n: int|
            0 <= n < 33 ==> is_russian_letter(#[trigger] letter_at(n)) && ordinal_of(letter_at(n))
                == n,
{
}

/// What the filter keeps is made of letters of the alphabet.
pub proof fn lemma_filter_gives_letters(text: Seq<char>)
    ensures
        all_russian(russian_letters(text)),
    decreases text.len(),
{
    if text.len() > 0 {
        lemma_filter_gives_letters(text.drop_last());
    }
}

/// A text made of letters of the alphabet passes the filter unchanged.
pub proof fn lemma_letters_pass_filter(letters: Seq<char>)
    requires
        all_russian(letters),
    ensures
        russian_letters(letters) == letters,
    decreases letters.len(),
{
    if letters.len() > 0 {
        lemma_letters_pass_filter(letters.drop_last());
        assert(is_russian_letter(letters.last()));
        assert(letters.drop_last() + seq![letters.last()] =~= letters);
    }
}

/// Moving a letter forward by a shift below 33 and then by what the shift
/// lacks to 33 gives the letter back.
pub proof fn lemma_rotation_undone(c: char, shift: int)
    requires
        is_russian_letter(c),
        0 <= shift < 33,
    ensures
        is_russian_letter(rotated_letter(c, shift)),
        rotated_letter(rotated_letter(c, shift), 33 - shift) == c,
{
    lemma_alphabet_round_trip();
    let moved = (ordinal_of(c) + shift) % 33;
    assert(ordinal_of(letter_at(moved)) == moved);
}

/// Deciphering what was enciphered under the same key gives back the letters
/// of the text: its letters of the alphabet, in upper case.
pub proof fn lemma_decrypt_inverts_encrypt(key: Seq<int>, text: Seq<char>)
    requires
        valid_key(key),
    ensures
        decrypted(key, russian_letters(encrypted(key, russian_letters(text)))) == russian_letters(
            text,
        ),
{
    let letters = russian_letters(text);
    let cipher = encrypted(key, letters);
    lemma_filter_gives_letters(text);
    assert forall|i: int| 0 <= i < cipher.len() implies is_russian_letter(
        #[trigger] cipher[i],
    ) && rotated_letter(cipher[i], 33 - shift_at(key, i)) == letters[i] by {
        lemma_rotation_undone(letters[i], shift_at(key, i));
    }
    lemma_letters_pass_filter(cipher);
    assert(decrypted(key, cipher) =~= letters);
}

/// One pass through the key later, the same place of the key shifts by one
/// more, going round at 33.
pub proof fn lemma_shift_next_pass(key: Seq<int>, i: int)
    requires
        valid_key(key),
        0 <= i,
    ensures
        shift_at(key, i + key.len()) == (shift_at(key, i) + 1) % 33,
{
    let len = key.len() as int;
    lemma_fundamental_div_mod(i, len);
    lemma_mod_pos_bound(i, len);
    assert((i / len + 1) * len == len * (i / len) + len) by (nonlinear_arith);
    lemma_fundamental_div_mod_converse(i + len, len, i / len + 1, i % len);
}

/// The key's first letter shifts further at its second use than at its first,
/// unless it is the last letter of the alphabet, whose shift goes round to 0.
pub proof fn lemma_shift_grows(key: Seq<int>)
    requires
        valid_key(key),
        key[0] != 32,
    ensures
        shift_at(key, 0) == key[0],
        shift_at(key, key.len() as int) == key[0] + 1,
        shift_at(key, key.len() as int) > shift_at(key, 0),
{
    lemma_shift_next_pass(key, 0);
}

} // verus!
