use bytedungeon::session::{collect_cell_options, GameSession};
use bytedungeon::EngineError;

fn square(width: usize) -> GameSession {
    let mut s = GameSession::new();
    let mut flat = String::new();
    for _ in 0..width * width {
        flat.push('0');
    }
    s.board_from_str(&flat, width).unwrap();
    s
}

#[test]
fn move_reach_golden_five_by_five() {
    // A token at (2,2) on an all-empty 5x5 board with movement range 2
    // reaches exactly the Manhattan diamond of radius 2, minus the
    // origin: 12 cells.
    let mut s = square(5);
    bytedungeon::session::add_character(
        &mut s,
        'a',
        "Ari".to_string(),
        6,
        2,
        10,
        10,
        1,
        1,
        1,
        1,
        1,
        1,
        None,
    );
    bytedungeon::session::place_token(&mut s, 'a', 2, 2).unwrap();
    let cells = collect_cell_options(&s, 2, 2, 2, false).unwrap();
    let expected = [
        (1usize, 2usize),
        (3, 2),
        (2, 1),
        (2, 3),
        (0, 2),
        (4, 2),
        (2, 0),
        (2, 4),
        (1, 1),
        (1, 3),
        (3, 1),
        (3, 3),
    ];
    assert_eq!(cells.len(), 12);
    for (r, c) in expected {
        assert!(cells.contains(r, c), "missing ({}, {})", r, c);
    }
    assert!(!cells.contains(2, 2));
}

#[test]
fn move_reach_never_contains_origin_or_occupied() {
    let mut s = square(4);
    bytedungeon::session::toggle_cell(&mut s, 1, 2).unwrap(); // wall
    bytedungeon::session::add_character(
        &mut s,
        'b',
        "Bo".to_string(),
        6,
        1,
        8,
        8,
        0,
        0,
        0,
        0,
        0,
        0,
        None,
    );
    bytedungeon::session::place_token(&mut s, 'b', 2, 2).unwrap();
    let cells = collect_cell_options(&s, 1, 1, 3, false).unwrap();
    assert!(!cells.contains(1, 1)); // origin
    assert!(!cells.contains(1, 2)); // wall
    assert!(!cells.contains(2, 2)); // token
}

#[test]
fn move_reach_goes_around_corners() {
    // 3x3 board, wall at (0,1): (0,2) is unreachable in 2 steps along
    // the blocked row but reachable in 4 via the branching walk.
    let mut s = square(3);
    bytedungeon::session::toggle_cell(&mut s, 0, 1).unwrap();
    let short = collect_cell_options(&s, 0, 0, 2, false).unwrap();
    assert!(!short.contains(0, 2));
    let long = collect_cell_options(&s, 0, 0, 4, false).unwrap();
    assert!(long.contains(0, 2));
}

#[test]
fn move_range_zero_is_empty() {
    let s = square(3);
    let cells = collect_cell_options(&s, 1, 1, 0, false).unwrap();
    assert_eq!(cells.len(), 0);
    let negative = collect_cell_options(&s, 1, 1, -2, false).unwrap();
    assert_eq!(negative.len(), 0);
}

#[test]
fn collect_cell_options_out_of_bounds() {
    let s = square(3);
    assert_eq!(
        collect_cell_options(&s, 7, 1, 2, false).unwrap_err(),
        EngineError::OutOfBounds
    );
}

#[test]
fn sight_single_corner_does_not_block() {
    // Origin (1,1); diagonal step up-right to (0,2) has orthogonal
    // neighbors (0,1) and (1,2). One wall does not block the step.
    let mut s = square(3);
    bytedungeon::session::toggle_cell(&mut s, 0, 1).unwrap();
    let cells = collect_cell_options(&s, 1, 1, 2, true).unwrap();
    assert!(cells.contains(0, 2));
}

#[test]
fn sight_two_perpendicular_walls_block() {
    let mut s = square(3);
    bytedungeon::session::toggle_cell(&mut s, 0, 1).unwrap();
    bytedungeon::session::toggle_cell(&mut s, 1, 2).unwrap();
    let cells = collect_cell_options(&s, 1, 1, 2, true).unwrap();
    assert!(!cells.contains(0, 2));
}

#[test]
fn sight_blocking_destination_excluded() {
    let mut s = square(3);
    bytedungeon::session::toggle_cell(&mut s, 0, 2).unwrap();
    let cells = collect_cell_options(&s, 1, 1, 2, true).unwrap();
    assert!(!cells.contains(0, 2));
}

#[test]
fn targeting_scans_past_tokens_but_not_walls() {
    let mut s = square(5);
    bytedungeon::session::add_character(
        &mut s,
        'c',
        "Cy".to_string(),
        6,
        1,
        8,
        8,
        0,
        0,
        0,
        0,
        0,
        0,
        None,
    );
    bytedungeon::session::place_token(&mut s, 'c', 2, 2).unwrap();
    bytedungeon::session::toggle_cell(&mut s, 2, 3).unwrap(); // wall right of token
    let cells = collect_cell_options(&s, 2, 0, 4, true).unwrap();
    assert!(cells.contains(2, 1));
    assert!(cells.contains(2, 2)); // the token itself is a target
    assert!(!cells.contains(2, 3)); // the wall is not
    assert!(!cells.contains(2, 4)); // and nothing beyond it
}

#[test]
fn diagonal_steps_cost_two_units() {
    let s = square(5);
    // Range 2 allows one diagonal step, range 4 allows two.
    let near = collect_cell_options(&s, 2, 2, 2, true).unwrap();
    assert!(near.contains(1, 3));
    assert!(!near.contains(0, 4));
    let far = collect_cell_options(&s, 2, 2, 4, true).unwrap();
    assert!(far.contains(0, 4));
}
