use aee::text::chars_of;

#[test]
fn characters_come_in_their_order() {
    assert_eq!(chars_of("ep1.mkv"), vec!['e', 'p', '1', '.', 'm', 'k', 'v']);
    assert_eq!(chars_of(""), Vec::<char>::new());
}

#[test]
fn a_character_of_several_bytes_is_one_character() {
    assert_eq!(chars_of("第01話"), vec!['第', '0', '1', '話']);
    assert_eq!(chars_of("é\u{3000}"), vec!['é', '\u{3000}']);
}
