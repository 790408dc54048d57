//! Move enumeration and the Cartesian-product utility.

use perft_generator::board::{Board, Move, Request};
use perft_generator::cartprod::{cartesian_product, partial_cartesian};
use perft_generator::coordinate::{Coordinate, Direction};
use perft_generator::snake::Snake;

fn snake(id: u32, health: u8, body: Vec<(i32, i32)>) -> Snake {
    Snake {
        id,
        health,
        body: body.into_iter().map(|(x, y)| Coordinate::new(x, y)).collect(),
    }
}

fn request(you: u32, snakes: Vec<Snake>) -> Request {
    Request {
        turn: 0,
        you,
        board: Board { width: 11, height: 11, food: vec![], snakes },
    }
}

#[test]
fn partial_cartesian_extends_each_tuple() {
    let partial_product = vec![vec![1, 4], vec![1, 5], vec![2, 4], vec![2, 5]];
    let items = [6, 7];
    let next_product = partial_cartesian(partial_product, &items);
    assert_eq!(
        next_product,
        vec![
            vec![1, 4, 6],
            vec![1, 4, 7],
            vec![1, 5, 6],
            vec![1, 5, 7],
            vec![2, 4, 6],
            vec![2, 4, 7],
            vec![2, 5, 6],
            vec![2, 5, 7],
        ]
    );
}

#[test]
fn cartesian_product_of_three_lists() {
    let lists = vec![vec![1, 2], vec![4, 5], vec![6, 7]];
    let product = cartesian_product(lists);
    assert_eq!(
        product,
        vec![
            vec![1, 4, 6],
            vec![1, 4, 7],
            vec![1, 5, 6],
            vec![1, 5, 7],
            vec![2, 4, 6],
            vec![2, 4, 7],
            vec![2, 5, 6],
            vec![2, 5, 7],
        ]
    );
}

#[test]
fn cartesian_product_without_lists_is_empty() {
    let product = cartesian_product(Vec::<Vec<i32>>::new());
    assert_eq!(product, Vec::<Vec<i32>>::new());
}

#[test]
fn empty_input_list_collapses_the_product() {
    let product = cartesian_product(vec![vec![1, 2], vec![]]);
    assert_eq!(product, Vec::<Vec<i32>>::new());
}

#[test]
fn viewpoint_candidates_are_the_four_directions() {
    let r = request(1, vec![
        snake(1, 50, vec![(5, 5), (5, 4)]),
        snake(2, 50, vec![(1, 1), (1, 2)]),
    ]);
    let moves = perft_generator::genmove::generate_moves_you(&r);
    assert_eq!(moves.len(), 4);
    let dirs: Vec<Direction> = moves.iter().map(|m| m.direction).collect();
    assert_eq!(
        dirs,
        vec![Direction::Up, Direction::Down, Direction::Left, Direction::Right]
    );
    for m in &moves {
        assert_eq!(m.id, 1);
    }
}

#[test]
fn viewpoint_candidates_of_a_terminal_request_are_none() {
    // A single alive agent is terminal, and so is a request whose
    // viewpoint agent is gone.
    let lone = request(1, vec![snake(1, 50, vec![(5, 5)])]);
    assert_eq!(perft_generator::genmove::generate_moves_you(&lone).len(), 0);
    let gone = request(9, vec![
        snake(1, 50, vec![(5, 5)]),
        snake(2, 50, vec![(1, 1)]),
    ]);
    assert_eq!(perft_generator::genmove::generate_moves_you(&gone).len(), 0);
}

#[test]
fn move_sets_count_is_four_to_the_others() {
    // Two alive agents: 4^1 move-sets per fixed viewpoint move.
    let two = request(1, vec![
        snake(1, 50, vec![(5, 5), (5, 4)]),
        snake(2, 50, vec![(1, 1), (1, 2)]),
    ]);
    let sets = perft_generator::genmove::generate_moves_all(&two, Move::new(Direction::Up, 1));
    assert_eq!(sets.len(), 4);
    // Three alive agents: 4^2 move-sets.
    let three = request(1, vec![
        snake(1, 50, vec![(5, 5), (5, 4)]),
        snake(2, 50, vec![(1, 1), (1, 2)]),
        snake(3, 50, vec![(9, 9), (9, 8)]),
    ]);
    let sets = perft_generator::genmove::generate_moves_all(&three, Move::new(Direction::Up, 1));
    assert_eq!(sets.len(), 16);
}

#[test]
fn move_sets_cover_every_alive_agent_once() {
    let three = request(1, vec![
        snake(1, 50, vec![(5, 5), (5, 4)]),
        snake(2, 50, vec![(1, 1), (1, 2)]),
        snake(3, 50, vec![(9, 9), (9, 8)]),
    ]);
    let fixed = Move::new(Direction::Left, 1);
    let sets = perft_generator::genmove::generate_moves_all(&three, fixed);
    for set in &sets {
        assert_eq!(set.len(), 3);
        for id in [1u32, 2, 3] {
            assert_eq!(set.iter().filter(|m| m.id == id).count(), 1);
        }
        // The viewpoint entry is the fixed move itself.
        let vp = set.iter().find(|m| m.id == 1).unwrap();
        assert_eq!(vp.direction, Direction::Left);
    }
}

#[test]
fn move_sets_of_a_terminal_request_are_none() {
    let lone = request(1, vec![snake(1, 50, vec![(5, 5)])]);
    let sets = perft_generator::genmove::generate_moves_all(&lone, Move::new(Direction::Up, 1));
    assert_eq!(sets.len(), 0);
}

#[test]
fn move_sets_are_pairwise_distinct() {
    let three = request(1, vec![
        snake(1, 50, vec![(5, 5), (5, 4)]),
        snake(2, 50, vec![(1, 1), (1, 2)]),
        snake(3, 50, vec![(9, 9), (9, 8)]),
    ]);
    let sets = perft_generator::genmove::generate_moves_all(&three, Move::new(Direction::Up, 1));
    for i in 0..sets.len() {
        for j in (i + 1)..sets.len() {
            assert_ne!(sets[i], sets[j]);
        }
    }
}
