//! Branch independence: each search branch owns its clone of the
//! request, so advancing one branch never disturbs another.

use perft_generator::board::{Board, Move, Request};
use perft_generator::coordinate::{Coordinate, Direction};
use perft_generator::snake::Snake;

fn snake(id: u32, health: u8, body: Vec<(i32, i32)>) -> Snake {
    Snake {
        id,
        health,
        body: body.into_iter().map(|(x, y)| Coordinate::new(x, y)).collect(),
    }
}

#[test]
fn cloned_requests_do_not_share_state() {
    let original = Request {
        turn: 3,
        you: 1,
        board: Board {
            width: 11,
            height: 11,
            food: vec![Coordinate::new(6, 5)],
            snakes: vec![
                snake(1, 40, vec![(5, 5), (5, 4)]),
                snake(2, 60, vec![(1, 1), (1, 2)]),
            ],
        },
    };
    let mut branch = original.clone();
    let result = branch.make_moves(&vec![
        Move::new(Direction::Right, 1),
        Move::new(Direction::Down, 2),
    ]);
    assert_eq!(result, Ok(()));
    // The branch advanced: agent 1 ate the food and grew.
    assert_eq!(branch.turn, 4);
    assert_eq!(branch.board.snakes[0].health, 100);
    assert_eq!(branch.board.snakes[0].body.len(), 3);
    assert_eq!(branch.board.food.len(), 0);
    // The original is exactly as it was.
    assert_eq!(original.turn, 3);
    assert_eq!(original.board.food, vec![Coordinate::new(6, 5)]);
    assert_eq!(original.board.snakes[0].health, 40);
    assert_eq!(
        original.board.snakes[0].body,
        vec![Coordinate::new(5, 5), Coordinate::new(5, 4)]
    );
    assert_eq!(original.board.snakes[1].health, 60);
}

#[test]
fn sibling_branches_agree_with_a_fresh_run() {
    // Two branches stepped from the same parent with the same move-set
    // end in the same state, however many other siblings ran in
    // between.
    let parent = Request {
        turn: 0,
        you: 1,
        board: Board {
            width: 11,
            height: 11,
            food: vec![],
            snakes: vec![
                snake(1, 40, vec![(5, 5), (5, 4)]),
                snake(2, 60, vec![(1, 1), (1, 2)]),
            ],
        },
    };
    let moves = vec![Move::new(Direction::Up, 1), Move::new(Direction::Right, 2)];
    let mut first = parent.clone();
    assert_eq!(first.make_moves(&moves), Ok(()));
    // An unrelated sibling branch does its own different work.
    let mut noise = parent.clone();
    assert_eq!(
        noise.make_moves(&vec![
            Move::new(Direction::Down, 1),
            Move::new(Direction::Left, 2),
        ]),
        Ok(())
    );
    let mut second = parent.clone();
    assert_eq!(second.make_moves(&moves), Ok(()));
    assert_eq!(first.turn, second.turn);
    assert_eq!(first.board.food, second.board.food);
    assert_eq!(first.board.snakes.len(), second.board.snakes.len());
    for (a, b) in first.board.snakes.iter().zip(second.board.snakes.iter()) {
        assert_eq!(a.id, b.id);
        assert_eq!(a.health, b.health);
        assert_eq!(a.body, b.body);
    }
}
