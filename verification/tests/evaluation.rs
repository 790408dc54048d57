//! The evaluation-side board primitives and the integer vector.

use perft_generator::evalboard::{Battlesnake, Board, Coordinate, Status, manhattan, successors};
use perft_generator::linalg::Vector;

fn coord(x: i32, y: i32) -> Coordinate {
    Coordinate::new(x, y)
}

fn agent(id: u32, body: Vec<(i32, i32)>) -> Battlesnake {
    Battlesnake { id, body: body.into_iter().map(|(x, y)| coord(x, y)).collect() }
}

fn board(snakes: Vec<Battlesnake>) -> Board {
    Board { snakes, food: vec![] }
}

#[test]
fn dead_when_starved() {
    let me = agent(1, vec![(5, 5), (5, 4)]);
    let state = board(vec![agent(1, vec![(5, 5), (5, 4)]), agent(2, vec![(1, 1), (1, 2)])]);
    assert!(me.dead(&state, 0));
    assert!(!me.dead(&state, 50));
}

#[test]
fn dead_when_out_of_the_arena() {
    let state = board(vec![agent(1, vec![(11, 5)]), agent(2, vec![(1, 1), (1, 2)])]);
    assert!(agent(1, vec![(11, 5)]).dead(&state, 50));
    assert!(agent(1, vec![(-1, 5)]).dead(&state, 50));
    assert!(agent(1, vec![(5, 11)]).dead(&state, 50));
    assert!(agent(1, vec![(10, 10)]).dead(&board(vec![
        agent(1, vec![(10, 10)]),
        agent(2, vec![(1, 1), (1, 2)]),
    ]), 50) == false);
}

#[test]
fn dead_inside_the_other_tail() {
    let me = agent(1, vec![(1, 2), (0, 2)]);
    let state = board(vec![
        agent(1, vec![(1, 2), (0, 2)]),
        agent(2, vec![(1, 1), (1, 2), (1, 3)]),
    ]);
    assert!(me.dead(&state, 50));
}

#[test]
fn dead_on_head_to_head_against_no_shorter_opponent() {
    let equal = board(vec![
        agent(1, vec![(4, 4), (4, 3)]),
        agent(2, vec![(4, 4), (5, 4)]),
    ]);
    assert!(agent(1, vec![(4, 4), (4, 3)]).dead(&equal, 50));
    let shorter = board(vec![
        agent(1, vec![(4, 4), (4, 3), (4, 2)]),
        agent(2, vec![(4, 4), (5, 4)]),
    ]);
    assert!(!agent(1, vec![(4, 4), (4, 3), (4, 2)]).dead(&shorter, 50));
}

#[test]
fn dead_inside_own_tail() {
    let me = agent(1, vec![(4, 4), (4, 3), (4, 4)]);
    let state = board(vec![
        agent(1, vec![(4, 4), (4, 3), (4, 4)]),
        agent(2, vec![(9, 9), (9, 8)]),
    ]);
    assert!(me.dead(&state, 50));
}

#[test]
fn status_variants_are_distinct() {
    assert_ne!(Status::Win, Status::Loss);
    assert_ne!(Status::Win, Status::Draw);
    assert_ne!(Status::Loss, Status::Draw);
}

#[test]
fn manhattan_distances() {
    assert_eq!(manhattan(&coord(0, 0), &coord(0, 0)), 0);
    assert_eq!(manhattan(&coord(6, 6), &coord(2, 9)), 7);
    assert_eq!(manhattan(&coord(2, 9), &coord(6, 6)), 7);
    assert_eq!(manhattan(&coord(-3, 4), &coord(1, -1)), 9);
}

#[test]
fn successors_in_open_space() {
    let out = successors(&coord(5, 5), &board(vec![]), 0);
    let cells: Vec<(i32, i32)> = out.iter().map(|(c, _)| (c.x, c.y)).collect();
    assert_eq!(cells, vec![(5, 6), (5, 4), (4, 5), (6, 5)]);
    for (_, w) in &out {
        assert_eq!(*w, 1);
    }
}

#[test]
fn successors_respect_the_arena_edge() {
    let out = successors(&coord(0, 0), &board(vec![]), 0);
    let cells: Vec<(i32, i32)> = out.iter().map(|(c, _)| (c.x, c.y)).collect();
    assert_eq!(cells, vec![(0, 1), (1, 0)]);
    let out = successors(&coord(10, 10), &board(vec![]), 0);
    let cells: Vec<(i32, i32)> = out.iter().map(|(c, _)| (c.x, c.y)).collect();
    assert_eq!(cells, vec![(10, 9), (9, 10)]);
}

#[test]
fn successors_respect_the_occupancy_bitboard() {
    // Block (5,6) and (4,5): bits 5 + 6*11 = 71 and 4 + 5*11 = 59.
    let bb: u128 = (1u128 << 71) | (1u128 << 59);
    let out = successors(&coord(5, 5), &board(vec![]), bb);
    let cells: Vec<(i32, i32)> = out.iter().map(|(c, _)| (c.x, c.y)).collect();
    assert_eq!(cells, vec![(5, 4), (6, 5)]);
}

#[test]
fn vector_new_repeats_the_item() {
    let v = Vector::new(4, 7);
    let w = Vector::new(4, 1);
    // 7*1 four times over.
    assert_eq!(v.dot(&w), 28);
}

#[test]
fn dot_product_exact_value() {
    let v = Vector::new(3, 5);
    let w = Vector::new(3, -2);
    assert_eq!(v.dot(&w), -30);
    // The shorter left side decides the length.
    let longer = Vector::new(10, -2);
    assert_eq!(v.dot(&longer), -30);
    let empty = Vector::new(0, 9);
    assert_eq!(empty.dot(&w), 0);
}
