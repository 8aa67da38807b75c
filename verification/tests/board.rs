use fifteen_puzzle::{
    apply_move, get_valid_moves, is_done, is_valid_move, make_random_move, move_by_choice,
    swap_zero, Field, InvalidMove,
};

fn solved_grid() -> [[usize; 4]; 4] {
    [[0, 1, 2, 3], [4, 5, 6, 7], [8, 9, 10, 11], [12, 13, 14, 15]]
}

fn holds_each_tile_once(f: &Field) -> bool {
    let mut seen: [bool; 16] = [false; 16];
    for row in f.field() {
        for tile in row {
            if tile >= 16 || seen[tile] {
                return false;
            }
            seen[tile] = true;
        }
    }
    true
}

#[test]
fn test_shuffle() {
    let field = Field::new();
    let upd = make_random_move(field, 60);
    println!("{:?}", upd.field());
    assert_eq!(upd.field().len(), 4)
}

#[test]
fn test_get_valid_moves_from_zero() {
    let expected: Vec<(usize, usize)> = [(1, 0), (0, 1)].to_vec();
    let expected_2: Vec<(usize, usize)> = [(2, 3), (3, 2)].to_vec();
    assert_eq!(get_valid_moves((0, 0)), expected);
    assert_eq!(get_valid_moves((3, 3)), expected_2);
}

#[test]
fn test_swap() {
    let field = Field::new();
    let updated = swap_zero(&field, (1, 0));
    assert_eq!(updated.zero(), (1, 0));
    assert_eq!(updated.field()[1][0], 0);
    assert_eq!(updated.field()[0][0], 4);
}

#[test]
fn new_field_is_in_order_and_solved() {
    let field = Field::new();
    assert_eq!(field.field(), solved_grid());
    assert_eq!(field.zero(), (0, 0));
    for r in 0..4usize {
        for c in 0..4usize {
            assert_eq!(field.field()[r][c], r * 4 + c);
        }
    }
    assert!(is_done(&field));
}

#[test]
fn valid_moves_come_in_the_order_up_down_left_right() {
    assert_eq!(get_valid_moves((1, 2)), vec![(0, 2), (2, 2), (1, 1), (1, 3)]);
    assert_eq!(get_valid_moves((0, 2)), vec![(1, 2), (0, 1), (0, 3)]);
    assert_eq!(get_valid_moves((3, 1)), vec![(2, 1), (3, 0), (3, 2)]);
    assert_eq!(get_valid_moves((2, 0)), vec![(1, 0), (3, 0), (2, 1)]);
    assert_eq!(get_valid_moves((1, 3)), vec![(0, 3), (2, 3), (1, 2)]);
    assert_eq!(get_valid_moves((0, 3)), vec![(1, 3), (0, 2)]);
    assert_eq!(get_valid_moves((3, 0)), vec![(2, 0), (3, 1)]);
}

#[test]
fn valid_moves_are_counted_by_place() {
    for r in 0..4usize {
        for c in 0..4usize {
            let moves = get_valid_moves((r, c));
            let on_row_border = r == 0 || r == 3;
            let on_col_border = c == 0 || c == 3;
            let expected: usize = if on_row_border && on_col_border {
                2
            } else if on_row_border || on_col_border {
                3
            } else {
                4
            };
            assert_eq!(moves.len(), expected);
            for m in moves {
                assert!(m.0 < 4 && m.1 < 4);
                let dr = if m.0 > r { m.0 - r } else { r - m.0 };
                let dc = if m.1 > c { m.1 - c } else { c - m.1 };
                assert_eq!(dr + dc, 1);
            }
        }
    }
}

#[test]
fn valid_moves_from_outside_the_grid() {
    assert_eq!(get_valid_moves((4, 2)), vec![(3, 2)]);
    assert_eq!(get_valid_moves((1, 4)), vec![(1, 3)]);
    assert_eq!(get_valid_moves((4, 4)), vec![]);
    assert_eq!(get_valid_moves((5, 0)), vec![]);
    assert_eq!(get_valid_moves((usize::MAX, 0)), vec![]);
    assert_eq!(get_valid_moves((0, usize::MAX)), vec![]);
    assert_eq!(get_valid_moves((127, 127)), vec![]);
    assert_eq!(get_valid_moves((256, 1)), vec![]);
}

#[test]
fn swap_moves_one_tile_and_nothing_else() {
    let field = Field::new();
    let right = swap_zero(&field, (0, 1));
    assert_eq!(right.field(), [[1, 0, 2, 3], [4, 5, 6, 7], [8, 9, 10, 11], [12, 13, 14, 15]]);
    assert_eq!(right.zero(), (0, 1));
    let down = swap_zero(&right, (1, 1));
    assert_eq!(down.field(), [[1, 5, 2, 3], [4, 0, 6, 7], [8, 9, 10, 11], [12, 13, 14, 15]]);
    assert_eq!(down.zero(), (1, 1));
    assert_eq!(field.field(), solved_grid());
}

#[test]
fn moving_there_and_back_restores_the_field() {
    let start = swap_zero(&swap_zero(&Field::new(), (0, 1)), (1, 1));
    for target in get_valid_moves(start.zero()) {
        let there = swap_zero(&start, target);
        assert_ne!(there, start);
        assert!(is_valid_move(&there, &start.zero()));
        let back = swap_zero(&there, start.zero());
        assert_eq!(back, start);
    }
}

#[test]
fn only_neighbours_of_the_blank_are_valid_moves() {
    let field = Field::new();
    assert!(is_valid_move(&field, &(1, 0)));
    assert!(is_valid_move(&field, &(0, 1)));
    assert!(!is_valid_move(&field, &(0, 0)));
    assert!(!is_valid_move(&field, &(1, 1)));
    assert!(!is_valid_move(&field, &(2, 0)));
    assert!(!is_valid_move(&field, &(3, 3)));
    assert!(!is_valid_move(&field, &(0, 4)));
    assert!(!is_valid_move(&field, &(usize::MAX, 0)));
    let middle = swap_zero(&swap_zero(&field, (0, 1)), (1, 1));
    let mut count: usize = 0;
    for r in 0..4usize {
        for c in 0..4usize {
            let expected = [(0, 1), (2, 1), (1, 0), (1, 2)].contains(&(r, c));
            assert_eq!(is_valid_move(&middle, &(r, c)), expected);
            if expected {
                count += 1;
            }
        }
    }
    assert_eq!(count, 4);
}

#[test]
fn apply_move_makes_a_valid_move() {
    let field = Field::new();
    let moved = apply_move(&field, (1, 0));
    assert_eq!(moved, Ok(swap_zero(&field, (1, 0))));
    let moved = moved.unwrap();
    assert_eq!(moved.zero(), (1, 0));
    assert_eq!(moved.field()[0][0], 4);
    assert_eq!(moved.field()[1][0], 0);
}

#[test]
fn apply_move_refuses_an_invalid_move() {
    let field = Field::new();
    assert_eq!(apply_move(&field, (2, 2)), Err(InvalidMove));
    assert_eq!(apply_move(&field, (0, 0)), Err(InvalidMove));
    assert_eq!(apply_move(&field, (1, 1)), Err(InvalidMove));
    assert_eq!(apply_move(&field, (4, 0)), Err(InvalidMove));
    assert_eq!(apply_move(&field, (0, usize::MAX)), Err(InvalidMove));
}

#[test]
fn is_done_only_on_the_solved_field() {
    let field = Field::new();
    assert!(is_done(&field));
    let moved = swap_zero(&field, (0, 1));
    assert!(!is_done(&moved));
    let far = swap_zero(&swap_zero(&moved, (0, 2)), (0, 3));
    assert!(!is_done(&far));
    let back = swap_zero(&moved, (0, 0));
    assert!(is_done(&back));
}

#[test]
fn move_by_choice_takes_the_move_with_that_number() {
    let field = Field::new();
    let first = move_by_choice(&field, 0);
    assert_eq!(first, swap_zero(&field, (1, 0)));
    let second = move_by_choice(&field, 1);
    assert_eq!(second, swap_zero(&field, (0, 1)));
    let middle = swap_zero(&second, (1, 1));
    assert_eq!(move_by_choice(&middle, 0).zero(), (0, 1));
    assert_eq!(move_by_choice(&middle, 1).zero(), (2, 1));
    assert_eq!(move_by_choice(&middle, 2).zero(), (1, 0));
    assert_eq!(move_by_choice(&middle, 3).zero(), (1, 2));
}

#[test]
fn shuffle_of_no_steps_changes_nothing() {
    let field = Field::new();
    assert_eq!(make_random_move(field, 0), field);
    assert_eq!(make_random_move(field, -1), field);
    assert_eq!(make_random_move(field, i8::MIN), field);
    let moved = swap_zero(&field, (1, 0));
    assert_eq!(make_random_move(moved, 0), moved);
}

#[test]
fn shuffle_of_one_step_makes_one_valid_move() {
    let field = Field::new();
    for _ in 0..50 {
        let shuffled = make_random_move(field, 1);
        assert!(is_valid_move(&field, &shuffled.zero()));
        assert_eq!(shuffled, swap_zero(&field, shuffled.zero()));
    }
}

#[test]
fn shuffle_keeps_the_field_well_formed() {
    for times in [1i8, 2, 3, 30, 60, 127] {
        for _ in 0..20 {
            let shuffled = make_random_move(Field::new(), times);
            assert!(holds_each_tile_once(&shuffled));
            let (r, c) = shuffled.zero();
            assert!(r < 4 && c < 4);
            assert_eq!(shuffled.field()[r][c], 0);
        }
    }
}

#[test]
fn shuffle_alternates_the_colour_of_the_blank() {
    for times in 0..40i8 {
        let shuffled = make_random_move(Field::new(), times);
        let (r, c) = shuffled.zero();
        assert_eq!((r + c) % 2, (times as usize) % 2);
    }
}

#[test]
fn shuffle_stays_among_the_solvable_fields() {
    for _ in 0..50 {
        let shuffled = make_random_move(Field::new(), 30);
        let mut tiles: Vec<usize> = Vec::new();
        for row in shuffled.field() {
            for tile in row {
                tiles.push(tile);
            }
        }
        let mut inversions: usize = 0;
        for i in 0..16usize {
            for j in (i + 1)..16usize {
                if tiles[i] > tiles[j] {
                    inversions += 1;
                }
            }
        }
        let (r, c) = shuffled.zero();
        assert_eq!((inversions + r + c) % 2, 0);
    }
}

#[test]
fn shuffle_does_move() {
    let mut moved = false;
    for _ in 0..20 {
        if make_random_move(Field::new(), 1) != Field::new() {
            moved = true;
        }
    }
    assert!(moved);
}
