//! Turn-transition scenarios: movement, feeding, elimination, and the
//! failure semantics of malformed inputs.

use perft_generator::board::{Board, Move, Request, TransitionError};
use perft_generator::coordinate::{Coordinate, Direction};
use perft_generator::snake::Snake;

fn coord(x: i32, y: i32) -> Coordinate {
    Coordinate::new(x, y)
}

fn snake(id: u32, health: u8, body: Vec<(i32, i32)>) -> Snake {
    Snake { id, health, body: body.into_iter().map(|(x, y)| coord(x, y)).collect() }
}

fn request(width: u8, height: u8, you: u32, food: Vec<(i32, i32)>, snakes: Vec<Snake>) -> Request {
    Request {
        turn: 0,
        you,
        board: Board {
            width,
            height,
            food: food.into_iter().map(|(x, y)| coord(x, y)).collect(),
            snakes,
        },
    }
}

#[test]
fn single_agent_moves_right() {
    // An 11x11 board, one agent of health 50 at (5,5)-(5,4)-(5,3), no
    // food; after moving right the body is (6,5)-(5,5)-(5,4), health 49,
    // and the agent is not eliminated.
    let mut r = request(11, 11, 1, vec![], vec![snake(1, 50, vec![(5, 5), (5, 4), (5, 3)])]);
    let result = r.make_moves(&vec![Move::new(Direction::Right, 1)]);
    assert_eq!(result, Ok(()));
    assert_eq!(r.turn, 1);
    assert_eq!(r.board.snakes.len(), 1);
    let s = &r.board.snakes[0];
    assert_eq!(s.health, 49);
    assert_eq!(s.body, vec![coord(6, 5), coord(5, 5), coord(5, 4)]);
}

#[test]
fn movement_uses_pre_move_head_for_length_one_body() {
    let mut r = request(11, 11, 7, vec![], vec![
        snake(7, 10, vec![(2, 2)]),
        snake(8, 10, vec![(9, 9), (9, 8)]),
    ]);
    let result = r.make_moves(&vec![
        Move::new(Direction::Up, 7),
        Move::new(Direction::Down, 8),
    ]);
    assert_eq!(result, Ok(()));
    assert_eq!(r.board.snakes[0].body, vec![coord(2, 3)]);
    assert_eq!(r.board.snakes[1].body, vec![coord(9, 8), coord(9, 9)]);
}

#[test]
fn feeding_resets_health_and_grows_tail() {
    // The head lands on food: the tail segment is duplicated and health
    // returns to full; the food item is gone.
    let mut r = request(11, 11, 1, vec![(6, 5), (0, 0)], vec![
        snake(1, 37, vec![(5, 5), (5, 4), (5, 3)]),
        snake(2, 90, vec![(0, 10), (1, 10)]),
    ]);
    let result = r.make_moves(&vec![
        Move::new(Direction::Right, 1),
        Move::new(Direction::Down, 2),
    ]);
    assert_eq!(result, Ok(()));
    let s = &r.board.snakes[0];
    assert_eq!(s.health, 100);
    assert_eq!(s.body, vec![coord(6, 5), coord(5, 5), coord(5, 4), coord(5, 4)]);
    // The eaten food is removed; the untouched one is carried over.
    assert_eq!(r.board.food, vec![coord(0, 0)]);
}

#[test]
fn shared_food_feeds_longer_head_to_head_winner() {
    // Two heads move onto the same food coordinate: every coincident
    // agent feeds. The heads then collide; only the longer body
    // survives, and it shows the feeding: full health and one more
    // segment.
    let mut r = request(11, 11, 1, vec![(5, 5)], vec![
        snake(1, 20, vec![(4, 5), (3, 5), (2, 5)]),
        snake(2, 80, vec![(6, 5), (7, 5)]),
    ]);
    let result = r.make_moves(&vec![
        Move::new(Direction::Right, 1),
        Move::new(Direction::Left, 2),
    ]);
    assert_eq!(result, Ok(()));
    assert_eq!(r.board.food, Vec::<Coordinate>::new());
    assert_eq!(r.board.snakes.len(), 1);
    let s = &r.board.snakes[0];
    assert_eq!(s.id, 1);
    assert_eq!(s.health, 100);
    assert_eq!(s.body, vec![coord(5, 5), coord(4, 5), coord(3, 5), coord(3, 5)]);
}

#[test]
fn shared_food_feeds_other_winner_when_order_reversed() {
    // The same encounter with the agents listed in the other order: the
    // outcome is the same surviving agent with the same fed state.
    let mut r = request(11, 11, 1, vec![(5, 5)], vec![
        snake(2, 80, vec![(6, 5), (7, 5)]),
        snake(1, 20, vec![(4, 5), (3, 5), (2, 5)]),
    ]);
    let result = r.make_moves(&vec![
        Move::new(Direction::Left, 2),
        Move::new(Direction::Right, 1),
    ]);
    assert_eq!(result, Ok(()));
    assert_eq!(r.board.snakes.len(), 1);
    let s = &r.board.snakes[0];
    assert_eq!(s.id, 1);
    assert_eq!(s.health, 100);
    assert_eq!(s.body, vec![coord(5, 5), coord(4, 5), coord(3, 5), coord(3, 5)]);
}

#[test]
fn equal_length_head_to_head_eliminates_both() {
    let mut r = request(11, 11, 1, vec![], vec![
        snake(1, 50, vec![(4, 5), (3, 5)]),
        snake(2, 50, vec![(6, 5), (7, 5)]),
    ]);
    let result = r.make_moves(&vec![
        Move::new(Direction::Right, 1),
        Move::new(Direction::Left, 2),
    ]);
    assert_eq!(result, Ok(()));
    assert_eq!(r.board.snakes.len(), 0);
    assert!(r.game_over());
}

#[test]
fn elimination_is_independent_of_agent_order() {
    // Three agents; one runs out of bounds, one loses a head-to-head.
    // Permuting the agents before the turn never changes who survives.
    let build = |order: [u32; 3]| -> Request {
        let mk = |id: u32| -> Snake {
            match id {
                1 => snake(1, 50, vec![(0, 0), (1, 0)]),
                2 => snake(2, 50, vec![(4, 5), (3, 5), (2, 5)]),
                _ => snake(3, 50, vec![(6, 5), (7, 5)]),
            }
        };
        request(11, 11, 2, vec![], vec![mk(order[0]), mk(order[1]), mk(order[2])])
    };
    let moves = vec![
        Move::new(Direction::Down, 1),
        Move::new(Direction::Right, 2),
        Move::new(Direction::Left, 3),
    ];
    let orders: [[u32; 3]; 3] = [[1, 2, 3], [3, 2, 1], [2, 1, 3]];
    for order in orders {
        let mut r = build(order);
        assert_eq!(r.make_moves(&moves), Ok(()));
        let mut ids: Vec<u32> = r.board.snakes.iter().map(|s| s.id).collect();
        ids.sort();
        // Agent 1 walks off the board; agent 3 loses the head-to-head
        // against the longer agent 2.
        assert_eq!(ids, vec![2]);
    }
}

#[test]
fn feeding_is_independent_of_food_order() {
    let run = |food: Vec<(i32, i32)>| -> Request {
        let mut r = request(11, 11, 1, food, vec![
            snake(1, 11, vec![(4, 5), (3, 5)]),
            snake(2, 22, vec![(9, 9), (9, 8)]),
        ]);
        let result = r.make_moves(&vec![
            Move::new(Direction::Right, 1),
            Move::new(Direction::Up, 2),
        ]);
        assert_eq!(result, Ok(()));
        r
    };
    let a = run(vec![(5, 5), (9, 10), (0, 0)]);
    let b = run(vec![(0, 0), (5, 5), (9, 10)]);
    for r in [&a, &b] {
        assert_eq!(r.board.snakes[0].health, 100);
        assert_eq!(r.board.snakes[0].body.len(), 3);
        assert_eq!(r.board.snakes[1].health, 100);
        assert_eq!(r.board.snakes[1].body.len(), 3);
        let mut food = r.board.food.clone();
        food.sort_by_key(|c| (c.x, c.y));
        assert_eq!(food, vec![coord(0, 0)]);
    }
}

#[test]
fn zero_health_agent_is_eliminated() {
    let mut r = request(11, 11, 1, vec![], vec![
        snake(1, 1, vec![(5, 5), (5, 4)]),
        snake(2, 50, vec![(0, 0), (1, 0)]),
    ]);
    let result = r.make_moves(&vec![
        Move::new(Direction::Right, 1),
        Move::new(Direction::Up, 2),
    ]);
    assert_eq!(result, Ok(()));
    // Agent 1 moved with one health left, reaching zero, and starved.
    let ids: Vec<u32> = r.board.snakes.iter().map(|s| s.id).collect();
    assert_eq!(ids, vec![2]);
}

#[test]
fn out_of_bounds_head_is_eliminated() {
    let mut r = request(5, 5, 2, vec![], vec![
        snake(1, 50, vec![(4, 2), (3, 2)]),
        snake(2, 50, vec![(0, 0), (0, 1)]),
    ]);
    let result = r.make_moves(&vec![
        Move::new(Direction::Right, 1),
        Move::new(Direction::Down, 2),
    ]);
    assert_eq!(result, Ok(()));
    // Both heads leave the 5x5 board: x == 5 and y == -1.
    assert_eq!(r.board.snakes.len(), 0);
}

#[test]
fn body_collision_eliminates_the_runner() {
    let mut r = request(11, 11, 1, vec![], vec![
        snake(1, 50, vec![(4, 4), (3, 4), (2, 4)]),
        snake(2, 50, vec![(5, 5), (5, 4), (5, 3), (6, 3)]),
    ]);
    let result = r.make_moves(&vec![
        Move::new(Direction::Right, 1),
        Move::new(Direction::Up, 2),
    ]);
    assert_eq!(result, Ok(()));
    // Agent 1's head lands on (5,4), inside agent 2's body.
    let ids: Vec<u32> = r.board.snakes.iter().map(|s| s.id).collect();
    assert_eq!(ids, vec![2]);
}

#[test]
fn missing_move_entry_is_malformed() {
    let mut r = request(11, 11, 1, vec![], vec![
        snake(1, 50, vec![(5, 5), (5, 4)]),
        snake(2, 50, vec![(1, 1), (1, 2)]),
    ]);
    let result = r.make_moves(&vec![Move::new(Direction::Right, 1)]);
    assert_eq!(result, Err(TransitionError::MalformedMoveSet));
    // The request is left untouched.
    assert_eq!(r.turn, 0);
    assert_eq!(r.board.snakes[0].health, 50);
    assert_eq!(r.board.snakes[0].body.len(), 2);
}

#[test]
fn duplicated_move_entry_is_malformed() {
    let mut r = request(11, 11, 1, vec![], vec![snake(1, 50, vec![(5, 5), (5, 4)])]);
    let result = r.make_moves(&vec![
        Move::new(Direction::Right, 1),
        Move::new(Direction::Up, 1),
    ]);
    assert_eq!(result, Err(TransitionError::MalformedMoveSet));
}

#[test]
fn empty_body_is_an_invariant_violation() {
    let mut r = request(11, 11, 1, vec![], vec![snake(1, 50, vec![])]);
    let result = r.make_moves(&vec![Move::new(Direction::Right, 1)]);
    assert_eq!(result, Err(TransitionError::InvariantViolation));
    assert_eq!(r.turn, 0);
}

#[test]
fn duplicate_ids_are_an_invariant_violation() {
    let mut r = request(11, 11, 1, vec![], vec![
        snake(1, 50, vec![(5, 5), (5, 4)]),
        snake(1, 50, vec![(1, 1), (1, 2)]),
    ]);
    let result = r.make_moves(&vec![Move::new(Direction::Right, 1)]);
    assert_eq!(result, Err(TransitionError::InvariantViolation));
}

#[test]
fn extra_move_entries_for_unknown_ids_are_ignored() {
    let mut r = request(11, 11, 1, vec![], vec![
        snake(1, 50, vec![(5, 5), (5, 4)]),
        snake(2, 50, vec![(1, 1), (1, 2)]),
    ]);
    let result = r.make_moves(&vec![
        Move::new(Direction::Right, 1),
        Move::new(Direction::Up, 2),
        Move::new(Direction::Down, 99),
    ]);
    assert_eq!(result, Ok(()));
    assert_eq!(r.board.snakes.len(), 2);
}

#[test]
fn game_over_cases() {
    // Two agents and the viewpoint alive: the game goes on.
    let two = request(11, 11, 1, vec![], vec![
        snake(1, 50, vec![(5, 5)]),
        snake(2, 50, vec![(1, 1)]),
    ]);
    assert!(!two.game_over());
    // A single alive agent: over.
    let one = request(11, 11, 1, vec![], vec![snake(1, 50, vec![(5, 5)])]);
    assert!(one.game_over());
    // The viewpoint agent is gone: over, whoever else is alive.
    let gone = request(11, 11, 9, vec![], vec![
        snake(1, 50, vec![(5, 5)]),
        snake(2, 50, vec![(1, 1)]),
    ]);
    assert!(gone.game_over());
    // No agents at all: over.
    let none = request(11, 11, 1, vec![], vec![]);
    assert!(none.game_over());
}

#[test]
fn turn_counter_advances_by_one_per_transition() {
    let mut r = request(11, 11, 1, vec![], vec![
        snake(1, 50, vec![(5, 5), (5, 4)]),
        snake(2, 50, vec![(1, 1), (1, 2)]),
    ]);
    let moves = vec![Move::new(Direction::Up, 1), Move::new(Direction::Up, 2)];
    assert_eq!(r.make_moves(&moves), Ok(()));
    assert_eq!(r.turn, 1);
    assert_eq!(r.make_moves(&moves), Ok(()));
    assert_eq!(r.turn, 2);
}
