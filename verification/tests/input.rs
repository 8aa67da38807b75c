use fifteen_puzzle::user_input_to_coord;

#[test]
fn test_uinput_convert() {
    let uinp = "a1".to_string();
    let result = user_input_to_coord(&uinp);
    assert_eq!(result.unwrap(), (3, 0));
}

#[test]
fn commands_name_column_then_row() {
    assert_eq!(user_input_to_coord("a1"), Some((3, 0)));
    assert_eq!(user_input_to_coord("d4"), Some((0, 3)));
    assert_eq!(user_input_to_coord("e1"), None);
    assert_eq!(user_input_to_coord("a5"), None);
}

#[test]
fn every_command_of_the_grid() {
    let letters = ['a', 'b', 'c', 'd'];
    let digits = ['1', '2', '3', '4'];
    for (col, letter) in letters.iter().enumerate() {
        for (index, digit) in digits.iter().enumerate() {
            let text = format!("{}{}", letter, digit);
            assert_eq!(user_input_to_coord(&text), Some((3 - index, col)));
        }
    }
}

#[test]
fn what_follows_the_command_is_ignored() {
    assert_eq!(user_input_to_coord("b3\n"), Some((1, 1)));
    assert_eq!(user_input_to_coord("c2\r\n"), Some((2, 2)));
    assert_eq!(user_input_to_coord("d1 and more"), Some((3, 3)));
    assert_eq!(user_input_to_coord("a44"), Some((0, 0)));
}

#[test]
fn other_characters_are_no_command() {
    assert_eq!(user_input_to_coord("A1"), None);
    assert_eq!(user_input_to_coord("1a"), None);
    assert_eq!(user_input_to_coord("a0"), None);
    assert_eq!(user_input_to_coord("a "), None);
    assert_eq!(user_input_to_coord(" a1"), None);
    assert_eq!(user_input_to_coord("f9"), None);
    assert_eq!(user_input_to_coord("\u{e9}1"), None);
    assert_eq!(user_input_to_coord("a\u{663}"), None);
}

#[test]
fn short_texts_are_no_command() {
    assert_eq!(user_input_to_coord(""), None);
    assert_eq!(user_input_to_coord("a"), None);
    assert_eq!(user_input_to_coord("\n"), None);
    assert_eq!(user_input_to_coord("4"), None);
}
