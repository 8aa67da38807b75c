use fifteen_puzzle::{swap_zero, Field};

#[test]
fn draw_of_the_solved_field() {
    let expected = "4 | 0  1  2  3\n\
                    3 | 4  5  6  7\n\
                    2 | 8  9  10  11\n\
                    1 | 12  13  14  15\n\
                    - |------------\n\
                    - |  a  b  c  d\n";
    assert_eq!(Field::new().draw(), expected);
    assert_eq!(Field::new().draw().chars().count(), 98);
}

#[test]
fn draw_after_moves() {
    let field = Field::new();
    let moved = swap_zero(&swap_zero(&swap_zero(&field, (1, 0)), (2, 0)), (2, 1));
    let expected = "4 | 4  1  2  3\n\
                    3 | 8  5  6  7\n\
                    2 | 9  0  10  11\n\
                    1 | 12  13  14  15\n\
                    - |------------\n\
                    - |  a  b  c  d\n";
    assert_eq!(moved.draw(), expected);
}

#[test]
fn draw_puts_two_spaces_between_tiles_and_none_after_the_last() {
    let field = Field::new();
    let moved = swap_zero(&swap_zero(&swap_zero(&field, (0, 1)), (0, 2)), (0, 3));
    let down = swap_zero(&swap_zero(&swap_zero(&moved, (1, 3)), (2, 3)), (3, 3));
    let text = down.draw();
    let lines: Vec<&str> = text.lines().collect();
    assert_eq!(lines[0], "4 | 1  2  3  7");
    assert_eq!(lines[1], "3 | 4  5  6  11");
    assert_eq!(lines[2], "2 | 8  9  10  15");
    assert_eq!(lines[3], "1 | 12  13  14  0");
}

#[test]
fn draw_has_six_lines_with_falling_labels() {
    let text = swap_zero(&Field::new(), (0, 1)).draw();
    let lines: Vec<&str> = text.lines().collect();
    assert_eq!(lines.len(), 6);
    assert_eq!(lines[0], "4 | 1  0  2  3");
    assert!(lines[1].starts_with("3 | "));
    assert!(lines[2].starts_with("2 | "));
    assert!(lines[3].starts_with("1 | "));
    assert_eq!(lines[4], "- |------------");
    assert_eq!(lines[5], "- |  a  b  c  d");
    assert!(text.ends_with('\n'));
}
