use classic_ciphers::text::string_of;

#[test]
fn string_of_keeps_the_characters_in_order() {
    assert_eq!(string_of(&vec!['a', 'Б', ' ', '-', 'ё']), "aБ -ё");
    assert_eq!(string_of(&vec![]), "");
}
