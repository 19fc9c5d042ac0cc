//! The progressive Vigenère cipher over the 33 letters of the Russian alphabet:
//! every pass through the key shifts one letter further than the pass before.

use crate::text::string_of;
use vstd::arithmetic::div_mod::lemma_div_pos_is_pos;
use vstd::arithmetic::div_mod::lemma_fundamental_div_mod;
use vstd::arithmetic::div_mod::lemma_fundamental_div_mod_converse;
use vstd::arithmetic::div_mod::lemma_mod_pos_bound;
use vstd::prelude::*;

verus! {

/// The alphabet in its own order, `Ё` standing between `Е` and `Ж`.
pub const ALPHABET: [char; 33] = [
    'А', 'Б', 'В', 'Г', 'Д', 'Е', 'Ё', 'Ж', 'З', 'И', 'Й', 'К', 'Л', 'М', 'Н', 'О', 'П', 'Р', 'С',
    'Т', 'У', 'Ф', 'Х', 'Ц', 'Ч', 'Ш', 'Щ', 'Ъ', 'Ы', 'Ь', 'Э', 'Ю', 'Я',
];

/// A capital letter of the alphabet: one of `А` to `Я`, or `Ё`.
pub open spec fn is_russian_letter(c: char) -> bool {
    ('А' <= c && c <= 'Я') || c == 'Ё'
}

/// The place of a letter in the alphabet, counted from 0. `Ё` lies outside the
/// run `А` to `Я` of code points and takes place 6, so the letters from `Ж` on
/// stand one place further than their code points say.
pub open spec fn ordinal_of(c: char) -> int {
    if 'А' <= c && c <= 'Е' {
        c as int - 'А' as int
    } else if c == 'Ё' {
        6
    } else {
        c as int - 'А' as int + 1
    }
}

/// The letter at place `n` of the alphabet.
pub open spec fn letter_at(n: int) -> char {
    ALPHABET@[n]
}

/// The letter `shift` places after `c`, going round the alphabet.
pub open spec fn rotated_letter(c: char, shift: int) -> char {
    letter_at((ordinal_of(c) + shift) % 33)
}

/// The first character of the Unicode upper-case mapping of `c`.
pub uninterp spec fn unicode_upper(c: char) -> char;

/// What the filter makes of one character before it decides: a capital of the
/// alphabet stays as it is, every other character is taken to upper case.
pub open spec fn upper_cased(c: char) -> char {
    if is_russian_letter(c) {
        c
    } else {
        unicode_upper(c)
    }
}

/// The letter that one character of a text contributes, if any.
pub open spec fn kept(c: char) -> Option<char> {
    if is_russian_letter(upper_cased(c)) {
        Some(upper_cased(c))
    } else {
        None
    }
}

/// The letters of the alphabet that a text holds, in order and in upper case.
/// Everything else (spaces, digits, punctuation, other scripts) is left out.
pub open spec fn russian_letters(text: Seq<char>) -> Seq<char> {
    text.filter_map(|c: char| kept(c))
}

/// Every member of `letters` is a capital of the alphabet.
pub open spec fn all_russian(letters: Seq<char>) -> bool {
    forall|i: int| 0 <= i < letters.len() ==> is_russian_letter(#[trigger] letters[i])
}

/// The places of the letters of `letters`.
pub open spec fn ordinals(letters: Seq<char>) -> Seq<int> {
    letters.map_values(|c: char| ordinal_of(c))
}

/// A usable key: at least one place, each below 33.
pub open spec fn valid_key(key: Seq<int>) -> bool {
    &&& key.len() > 0
    &&& forall|i: int| 0 <= i < key.len() ==> 0 <= #[trigger] key[i] < 33
}

/// The shift that the letter at position `i` of a text gets: the key's place
/// for that position, and one more for every pass through the key that has
/// been completed before it.
pub open spec fn shift_at(key: Seq<int>, i: int) -> int {
    (key[i % (key.len() as int)] + i / (key.len() as int)) % 33
}

/// The cursor that stands at position `i` of a text: the place in the key, and
/// the number of passes through the key completed so far, reduced below 33.
spec fn cursor_at(key: Seq<int>, i: int, at: int, cycle_num: int) -> bool {
    &&& at == i % (key.len() as int)
    &&& cycle_num == (i / (key.len() as int)) % 33
}

/// The letters of `letters`, each moved forward by the shift of its position.
pub open spec fn encrypted(key: Seq<int>, letters: Seq<char>) -> Seq<char> {
    Seq::new(letters.len(), |i: int| rotated_letter(letters[i], shift_at(key, i)))
}

/// The letters of `letters`, each moved back by the shift of its position,
/// which is the same as forward by what that shift lacks to 33.
pub open spec fn decrypted(key: Seq<int>, letters: Seq<char>) -> Seq<char> {
    Seq::new(letters.len(), |i: int| rotated_letter(letters[i], 33 - shift_at(key, i)))
}

/// `char::to_uppercase` of std, of whose result the first character is taken.
/// The contract only gives that character its name, `unicode_upper`.
#[verifier::external_body]
fn to_upper(c: char) -> (u: char)
    ensures
        u == unicode_upper(c),
{
    c.to_uppercase().next().unwrap_or(c)
}

/// Whether `c` is a capital letter of the alphabet.
pub fn is_russian(c: char) -> (b: bool)
    ensures
        b == is_russian_letter(c),
{
    ('А' <= c && c <= 'Я') || c == 'Ё'
}

/// The letters of the alphabet in `inp`, in upper case.
pub fn filter_russian(inp: &str) -> (out: Vec<char>)
    ensures
        out@ == russian_letters(inp@),
        all_russian(out@),
{
    let mut out: Vec<char> = Vec::new();
    for c in it: inp.chars()
        invariant
            it.seq() == inp@,
            out@ == russian_letters(inp@.take(it.index() as int)),
            all_russian(out@),
    {
        proof {
            inp@.lemma_filter_map_take_succ(|c: char| kept(c), it.index() as int);
        }
        let u = if is_russian(c) {
            c
        } else {
            to_upper(c)
        };
        if is_russian(u) {
            out.push(u);
        }
    }
    assert(inp@.take(inp@.len() as int) == inp@);
    out
}

/// The place of a letter of the alphabet.
pub fn as_ru_u32(val: char) -> (n: u32)
    requires
        is_russian_letter(val),
    ensures
        n == ordinal_of(val),
        n < 33,
{
    if 'А' <= val && val <= 'Е' {
        val as u32 - 'А' as u32
    } else if val == 'Ё' {
        6
    } else {
        val as u32 - 'А' as u32 + 1
    }
}

/// The letter at a place of the alphabet.
pub fn from_ru_u32(value: u32) -> (c: char)
    requires
        value < 33,
    ensures
        c == letter_at(value as int),
        is_russian_letter(c),
{
    ALPHABET[value as usize]
}

/// The letter `num` places after `val`, going round the alphabet. The shift is
/// reduced below 33 before it is added, so that no shift is too large.
pub fn rot(val: char, num: u32) -> (c: char)
    requires
        is_russian_letter(val),
    ensures
        c == rotated_letter(val, num as int),
        is_russian_letter(c),
{
    from_ru_u32((as_ru_u32(val) + num % 33) % 33)
}

/// The cipher with its key: the places of the key's letters.
pub struct VigenerProgressive {
    key: Vec<u32>,
}

impl View for VigenerProgressive {
    type V = Seq<int>;

    closed spec fn view(&self) -> Seq<int> {
        self.key@.map_values(|k: u32| k as int)
    }
}

impl VigenerProgressive {
    #[verifier::type_invariant]
    spec fn well_formed(self) -> bool {
        valid_key(self@)
    }

    /// The cipher for the key that `key` spells: the letters of the alphabet in
    /// it. A text without any such letter gives no cipher.
    pub fn new(key: &str) -> (made: Option<Self>)
        ensures
            made is None <==> russian_letters(key@).len() == 0,
            made matches Some(v) ==> v@ == ordinals(russian_letters(key@)) && valid_key(v@),
    {
        let letters = filter_russian(key);
        let mut places: Vec<u32> = Vec::new();
        let mut i: usize = 0;
        while i < letters.len()
            invariant
                i <= letters.len(),
                all_russian(letters@),
                places@.len() == i,
                forall|k: int| 0 <= k < i ==> places@[k] == ordinal_of(letters@[k]),
            decreases letters.len() - i,
        {
            places.push(as_ru_u32(letters[i]));
            i += 1;
        }
        if places.is_empty() {
            return None;
        }
        let made = VigenerProgressive { key: places };
        assert(made@ =~= ordinals(letters@));
        Some(made)
    }

    /// The shift for the position that the cursor stands at, and the cursor for
    /// the position after it. The cursor is the place in the key and the number
    /// of completed passes, the latter kept below 33.
    fn step(&self, at: usize, cycle_num: u32, Ghost(i): Ghost<int>) -> (next: (u32, usize, u32))
        requires
            i >= 0,
            cursor_at(self@, i, at as int, cycle_num as int),
        ensures
            next.0 == shift_at(self@, i),
            cursor_at(self@, i + 1, next.1 as int, next.2 as int),
    {
        proof {
            use_type_invariant(self);
            lemma_next_position(i, self@.len() as int);
        }
        let len = self.key.len();
        assert(self@.len() == len);
        let num = self.key[at];
        assert(num as int == self@[at as int]);
        let shift = (num + cycle_num) % 33;
        if at + 1 == len {
            (shift, 0, (cycle_num + 1) % 33)
        } else {
            (shift, at + 1, cycle_num)
        }
    }

    /// Enciphers the letters of the alphabet that `text` holds; everything else
    /// in `text` is passed over.
    pub fn encrypt(&self, text: &str) -> (out: String)
        ensures
            out@ == encrypted(self@, russian_letters(text@)),
    {
        proof {
            use_type_invariant(self);
        }
        let input = filter_russian(text);
        let mut out: Vec<char> = Vec::new();
        let mut cycle_num: u32 = 0;
        let mut at: usize = 0;
        let mut i: usize = 0;
        while i < input.len()
            invariant
                all_russian(input@),
                i <= input.len(),
                cursor_at(self@, i as int, at as int, cycle_num as int),
                out@ == encrypted(self@, input@.take(i as int)),
            decreases input.len() - i,
        {
            let (key_num, next_at, next_cycle) = self.step(at, cycle_num, Ghost(i as int));
            out.push(rot(input[i], key_num));
            at = next_at;
            cycle_num = next_cycle;
            i += 1;
            assert(out@ =~= encrypted(self@, input@.take(i as int)));
        }
        assert(input@.take(input@.len() as int) == input@);
        string_of(&out)
    }

    /// Deciphers the letters of the alphabet that `text` holds; everything else
    /// in `text` is passed over.
    pub fn decrypt(&self, text: &str) -> (out: String)
        ensures
            out@ == decrypted(self@, russian_letters(text@)),
    {
        proof {
            use_type_invariant(self);
        }
        let input = filter_russian(text);
        let mut out: Vec<char> = Vec::new();
        let mut cycle_num: u32 = 0;
        let mut at: usize = 0;
        let mut i: usize = 0;
        while i < input.len()
            invariant
                all_russian(input@),
                i <= input.len(),
                cursor_at(self@, i as int, at as int, cycle_num as int),
                out@ == decrypted(self@, input@.take(i as int)),
            decreases input.len() - i,
        {
            let (key_num, next_at, next_cycle) = self.step(at, cycle_num, Ghost(i as int));
            out.push(rot(input[i], 33 - key_num));
            at = next_at;
            cycle_num = next_cycle;
            i += 1;
            assert(out@ =~= decrypted(self@, input@.take(i as int)));
        }
        assert(input@.take(input@.len() as int) == input@);
        string_of(&out)
    }
}

/// Where position `i + 1` of a text falls in a key of `len` places, told from
/// where position `i` falls.
proof fn lemma_next_position(i: int, len: int)
    requires
        i >= 0,
        len > 0,
    ensures
        0 <= i % len < len,
        0 <= i / len,
        i % len + 1 < len ==> (i + 1) % len == i % len + 1 && (i + 1) / len == i / len,
        i % len + 1 == len ==> (i + 1) % len == 0 && (i + 1) / len == i / len + 1,
{
    lemma_fundamental_div_mod(i, len);
    lemma_mod_pos_bound(i, len);
    lemma_div_pos_is_pos(i, len);
    let q = i / len;
    let r = i % len;
    assert(len * q == q * len) by (nonlinear_arith);
    if r + 1 < len {
        lemma_fundamental_div_mod_converse(i + 1, len, q, r + 1);
    } else {
        assert((q + 1) * len == q * len + len) by (nonlinear_arith);
        lemma_fundamental_div_mod_converse(i + 1, len, q + 1, 0);
    }
}

} // verus!
