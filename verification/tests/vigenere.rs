use classic_ciphers::vigener_progressive::{
    as_ru_u32, filter_russian, from_ru_u32, is_russian, rot, VigenerProgressive, ALPHABET,
};

fn letters(text: &str) -> String {
    filter_russian(text).into_iter().collect()
}

#[test]
fn the_alphabet_has_thirty_three_letters_in_order() {
    let expected: Vec<char> = "АБВГДЕЁЖЗИЙКЛМНОПРСТУФХЦЧШЩЪЫЬЭЮЯ".chars().collect();
    assert_eq!(ALPHABET.to_vec(), expected);
}

#[test]
fn letters_and_places_answer_each_other() {
    for n in 0..33u32 {
        let c = from_ru_u32(n);
        assert!(is_russian(c));
        assert_eq!(as_ru_u32(c), n);
    }
    for c in ALPHABET {
        assert_eq!(from_ru_u32(as_ru_u32(c)), c);
    }
    let mut places: Vec<u32> = ALPHABET.iter().map(|c| as_ru_u32(*c)).collect();
    places.sort();
    places.dedup();
    assert_eq!(places, (0..33).collect::<Vec<u32>>());
}

#[test]
fn places_of_some_letters() {
    assert_eq!(as_ru_u32('А'), 0);
    assert_eq!(as_ru_u32('Е'), 5);
    assert_eq!(as_ru_u32('Ё'), 6);
    assert_eq!(as_ru_u32('Ж'), 7);
    assert_eq!(as_ru_u32('Я'), 32);
    assert_eq!(from_ru_u32(6), 'Ё');
    assert_eq!(from_ru_u32(7), 'Ж');
    assert_eq!(from_ru_u32(32), 'Я');
}

#[test]
fn letters_of_the_alphabet_are_told_apart() {
    assert!(is_russian('А'));
    assert!(is_russian('Я'));
    assert!(is_russian('Ё'));
    assert!(!is_russian('а'));
    assert!(!is_russian('ё'));
    assert!(!is_russian('A'));
    assert!(!is_russian('Ѐ'));
    assert!(!is_russian('Џ'));
    assert!(!is_russian(' '));
}

#[test]
fn rot_goes_round_the_alphabet() {
    assert_eq!(rot('А', 0), 'А');
    assert_eq!(rot('А', 1), 'Б');
    assert_eq!(rot('Е', 1), 'Ё');
    assert_eq!(rot('Ё', 1), 'Ж');
    assert_eq!(rot('Я', 1), 'А');
    assert_eq!(rot('А', 33), 'А');
    assert_eq!(rot('Б', 32), 'А');
    assert_eq!(rot('Я', 34), 'А');
    assert_eq!(rot('А', u32::MAX), 'Г');
    assert_eq!(rot('Я', u32::MAX), 'В');
}

#[test]
fn filter_keeps_russian_letters_in_upper_case() {
    assert_eq!(letters("Привет, мир! Ёж и ёлка."), "ПРИВЕТМИРЁЖИЁЛКА");
    assert_eq!(letters("привет"), "ПРИВЕТ");
    assert_eq!(letters("ПРИВЕТ"), "ПРИВЕТ");
    assert_eq!(letters("hello, world 123"), "");
    assert_eq!(letters("Їжак і ґанок"), "ЖАКАНОК");
    assert_eq!(letters(""), "");
}

#[test]
fn a_key_without_russian_letters_is_refused() {
    assert!(VigenerProgressive::new("").is_none());
    assert!(VigenerProgressive::new("hello").is_none());
    assert!(VigenerProgressive::new("123 !?").is_none());
    assert!(VigenerProgressive::new("кот").is_some());
    assert!(VigenerProgressive::new("a к").is_some());
}

#[test]
fn encrypt_shifts_by_key_and_pass() {
    let vig = VigenerProgressive::new("КОТ").unwrap();
    assert_eq!(vig.encrypt("ПРИВЕТ"), "ЪЯЫНФЁ");
    assert_eq!(vig.decrypt("ЪЯЫНФЁ"), "ПРИВЕТ");
    assert_eq!(vig.decrypt(&vig.encrypt("ПРИВЕТ")), "ПРИВЕТ");
}

#[test]
fn the_shift_grows_with_every_pass_through_the_key() {
    let vig = VigenerProgressive::new("АБ").unwrap();
    assert_eq!(vig.encrypt("ААААА"), "АББВВ");
    assert_eq!(vig.decrypt("АББВВ"), "ААААА");
}

#[test]
fn the_shift_goes_round_after_the_last_letter() {
    let vig = VigenerProgressive::new("Я").unwrap();
    assert_eq!(vig.encrypt("ААА"), "ЯАБ");
    assert_eq!(vig.decrypt("ЯАБ"), "ААА");
}

#[test]
fn text_and_key_are_filtered() {
    let vig = VigenerProgressive::new("к-о-т").unwrap();
    assert_eq!(vig.encrypt("Привет!"), "ЪЯЫНФЁ");
    assert_eq!(vig.decrypt("ъ я ы н ф ё"), "ПРИВЕТ");
    assert_eq!(vig.encrypt("hello"), "");
    assert_eq!(vig.decrypt(""), "");
}

#[test]
fn long_texts_come_back_after_many_passes() {
    let vig = VigenerProgressive::new("Я").unwrap();
    let text: String = "СЪЕШЬЖЕЕЩЁЭТИХМЯГКИХФРАНЦУЗСКИХБУЛОКДАВЫПЕЙЧАЮ".repeat(5);
    assert!(text.chars().count() > 2 * 33);
    let enc = vig.encrypt(&text);
    assert_ne!(enc, text);
    assert_eq!(vig.decrypt(&enc), text);

    let vig = VigenerProgressive::new("ЭЮЯ").unwrap();
    let enc = vig.encrypt(&text);
    assert_eq!(vig.decrypt(&enc), text);
}

#[test]
fn deciphering_what_was_enciphered_gives_the_letters() {
    let texts = [
        "",
        "Съешь же ещё этих мягких французских булок, да выпей чаю.",
        "abc где xyz",
        "ААААААААААААААААААААААААААААААААААААААААААААААААААААААААААААААААААААААА",
    ];
    for key in ["кот", "Ё", "Прогрессивный ключ", "я я я"] {
        let vig = VigenerProgressive::new(key).unwrap();
        for text in texts {
            let enc = vig.encrypt(text);
            let dec = vig.decrypt(&enc);
            assert_eq!(dec, letters(text));
            let enc2 = vig.encrypt(&dec);
            let dec2 = vig.decrypt(&enc2);
            assert_eq!(enc, enc2);
            assert_eq!(dec, dec2);
        }
    }
}
