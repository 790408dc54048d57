//! The board, the turn request around it, and the turn transition:
//! simultaneous movement, order-independent feeding, and elimination
//! against a single immutable snapshot.

use vstd::prelude::*;

use crate::coordinate::Coordinate;
use crate::coordinate::Direction;
use crate::coordinate::GridPoint;
use crate::snake::Snake;
use crate::snake::SnakeView;
use crate::snake::spec_body_collision;
use crate::snake::spec_lost_head_collision;

verus! {

/// One turn request: the board, the turn counter, and the id of the
/// distinguished viewpoint agent.
#[derive(Debug)]
pub struct Request {
    pub turn: u32,
    pub board: Board,
    pub you: u32,
}

/// The board: its dimensions, the food on it, and the alive agents in
/// their original order.
#[derive(Debug)]
pub struct Board {
    pub height: u8,
    pub width: u8,
    pub food: Vec<Coordinate>,
    pub snakes: Vec<Snake>,
}

/// One agent's move for one turn.
#[derive(Clone, Copy, Debug, PartialEq, Eq, Structural)]
pub struct Move {
    pub direction: Direction,
    pub id: u32,
}

/// Why a turn transition was refused.
#[derive(Clone, Copy, Debug, PartialEq, Eq, Structural)]
pub enum TransitionError {
    /// The move-set misses an entry for an alive agent, or holds more
    /// than one entry for it.
    MalformedMoveSet,
    /// An alive agent has an empty body, or two alive agents share an id.
    InvariantViolation,
}

/// The model of a `Board`.
#[verifier::ext_equal]
pub ghost struct BoardView {
    pub height: u8,
    pub width: u8,
    pub food: Seq<GridPoint>,
    pub snakes: Seq<SnakeView>,
}

/// The model of a `Request`.
#[verifier::ext_equal]
pub ghost struct RequestView {
    pub turn: u32,
    pub board: BoardView,
    pub you: u32,
}

/// The models of a sequence of agents.
pub open spec fn snake_views(snakes: Seq<Snake>) -> Seq<SnakeView> {
    snakes.map_values(|s: Snake| s@)
}

/// The models of a sequence of coordinates.
pub open spec fn point_views(coords: Seq<Coordinate>) -> Seq<GridPoint> {
    coords.map_values(|c: Coordinate| c@)
}

impl View for Board {
    type V = BoardView;

    open spec fn view(&self) -> BoardView {
        BoardView {
            height: self.height,
            width: self.width,
            food: point_views(self.food@),
            snakes: snake_views(self.snakes@),
        }
    }
}

impl View for Request {
    type V = RequestView;

    open spec fn view(&self) -> RequestView {
        RequestView { turn: self.turn, board: self.board@, you: self.you }
    }
}

/// Every agent's body is non-empty.
pub open spec fn bodies_nonempty(snakes: Seq<SnakeView>) -> bool {
    forall|i: int| 0 <= i < snakes.len() ==> snakes[i].body.len() > 0
}

/// No two agents share an id.
pub open spec fn ids_unique(snakes: Seq<SnakeView>) -> bool {
    forall|i: int, j: int|
        0 <= i < j < snakes.len() ==> snakes[i].id != snakes[j].id
}

/// No two food items share a coordinate: the food is a set.
pub open spec fn points_distinct(food: Seq<GridPoint>) -> bool {
    forall|i: int, j: int| 0 <= i < j < food.len() ==> food[i] != food[j]
}

/// Every head lies strictly inside the machine range of a coordinate, so
/// that one step in any direction is still representable.
pub open spec fn heads_movable(snakes: Seq<SnakeView>) -> bool {
    forall|i: int|
        0 <= i < snakes.len() && snakes[i].body.len() > 0 ==> i32::MIN < #[trigger] snakes[i].head().x
            < i32::MAX && i32::MIN < snakes[i].head().y < i32::MAX
}

/// A request on which the transition can be run for any move-set: the
/// structural invariants of the data model plus the machine bounds.
pub open spec fn wf_request(r: RequestView) -> bool {
    &&& bodies_nonempty(r.board.snakes)
    &&& ids_unique(r.board.snakes)
    &&& points_distinct(r.board.food)
    &&& heads_movable(r.board.snakes)
}

impl BoardView {
    /// True iff some alive agent carries `id`.
    pub open spec fn has_snake(self, id: u32) -> bool {
        exists|i: int| 0 <= i < self.snakes.len() && self.snakes[i].id == id
    }
}

impl RequestView {
    /// The branch is over: the viewpoint agent is gone, or at most one
    /// agent is left alive.
    pub open spec fn terminal(self) -> bool {
        !self.board.has_snake(self.you) || self.board.snakes.len() <= 1
    }
}

/// A fresh vector of agents with the same state.
fn clone_snakes(v: &Vec<Snake>) -> (r: Vec<Snake>)
    ensures
        snake_views(r@) == snake_views(v@),
{
    let mut r: Vec<Snake> = Vec::new();
    let mut i: usize = 0;
    while i < v.len()
        invariant
            0 <= i <= v@.len(),
            r@.len() == i,
            forall|k: int| 0 <= k < i ==> snake_views(r@)[k] == snake_views(v@)[k],
        decreases v@.len() - i,
    {
        let s = v[i].clone();
        let ghost prev = r@;
        r.push(s);
        proof {
            assert forall|k: int|
                0 <= k < i + 1 implies snake_views(r@)[k] == snake_views(v@)[k] by {
                if k < i {
                    assert(snake_views(r@)[k] == snake_views(prev)[k]);
                } else {
                    assert(snake_views(r@)[k] == s@);
                }
            }
        }
        i = i + 1;
    }
    proof {
        assert(snake_views(r@) =~= snake_views(v@));
    }
    r
}

impl Clone for Board {
    fn clone(&self) -> (res: Board)
        ensures
            res@ == self@,
    {
        let res = Board {
            height: self.height,
            width: self.width,
            food: crate::cartprod::copy_items(&self.food),
            snakes: clone_snakes(&self.snakes),
        };
        proof {
            assert(res@ =~= self@);
        }
        res
    }
}

impl Clone for Request {
    fn clone(&self) -> (res: Request)
        ensures
            res@ == self@,
    {
        let res = Request { turn: self.turn, board: self.board.clone(), you: self.you };
        proof {
            assert(res@ =~= self@);
        }
        res
    }
}

impl Move {
    pub fn new(direction: Direction, id: u32) -> (m: Move)
        ensures
            m == (Move { direction, id }),
    {
        Move { direction, id }
    }
}

/// How many entries of `moves` carry `id`.
pub open spec fn count_matching(moves: Seq<Move>, id: u32) -> nat
    decreases moves.len(),
{
    if moves.len() == 0 {
        0
    } else {
        count_matching(moves.drop_last(), id) + if moves.last().id == id {
            1nat
        } else {
            0nat
        }
    }
}

/// A full move-set: exactly one entry per alive agent. Entries whose id
/// belongs to no alive agent are ignored.
pub open spec fn move_set_valid(moves: Seq<Move>, snakes: Seq<SnakeView>) -> bool {
    forall|i: int| 0 <= i < snakes.len() ==> count_matching(moves, snakes[i].id) == 1
}

/// The direction that a move-set with exactly one entry for `id`
/// assigns to it.
pub open spec fn assigned_direction(moves: Seq<Move>, id: u32) -> Direction {
    let j = choose|j: int| 0 <= j < moves.len() && moves[j].id == id;
    moves[j].direction
}

/// A move-set with no entry for `id` counts zero for it, and one with an
/// entry counts at least one.
pub proof fn lemma_count_matching_zero(moves: Seq<Move>, id: u32)
    ensures
        (count_matching(moves, id) == 0) <==> (forall|j: int|
            0 <= j < moves.len() ==> moves[j].id != id),
    decreases moves.len(),
{
    if moves.len() > 0 {
        lemma_count_matching_zero(moves.drop_last(), id);
        assert(forall|j: int| 0 <= j < moves.len() - 1 ==> moves.drop_last()[j] == moves[j]);
        assert(moves.last() == moves[moves.len() - 1]);
    }
}

/// An entry at `j` makes the count for its id positive.
pub proof fn lemma_count_matching_pos(moves: Seq<Move>, id: u32, j: int)
    requires
        0 <= j < moves.len(),
        moves[j].id == id,
    ensures
        count_matching(moves, id) >= 1,
    decreases moves.len(),
{
    if j < moves.len() - 1 {
        lemma_count_matching_pos(moves.drop_last(), id, j);
    }
}

/// Two entries for the same id make its count at least two.
pub proof fn lemma_count_matching_two(moves: Seq<Move>, id: u32, j: int, k: int)
    requires
        0 <= j < k < moves.len(),
        moves[j].id == id,
        moves[k].id == id,
    ensures
        count_matching(moves, id) >= 2,
    decreases moves.len(),
{
    if k == moves.len() - 1 {
        lemma_count_matching_pos(moves.drop_last(), id, j);
    } else {
        lemma_count_matching_two(moves.drop_last(), id, j, k);
    }
}

/// With exactly one entry for `id`, any matching index determines the
/// assigned direction.
pub proof fn lemma_assigned_direction(moves: Seq<Move>, id: u32, j: int)
    requires
        count_matching(moves, id) == 1,
        0 <= j < moves.len(),
        moves[j].id == id,
    ensures
        assigned_direction(moves, id) == moves[j].direction,
{
    let j0 = choose|j0: int| 0 <= j0 < moves.len() && moves[j0].id == id;
    assert(0 <= j0 < moves.len() && moves[j0].id == id);
    if j0 < j {
        lemma_count_matching_two(moves, id, j0, j);
    } else if j < j0 {
        lemma_count_matching_two(moves, id, j, j0);
    }
}

/// How many entries of `moves` carry `id`, executable form.
fn count_moves_for(moves: &Vec<Move>, id: u32) -> (c: usize)
    ensures
        c == count_matching(moves@, id),
{
    let mut c: usize = 0;
    let mut j: usize = 0;
    while j < moves.len()
        invariant
            0 <= j <= moves@.len(),
            c <= j,
            c == count_matching(moves@.subrange(0, j as int), id),
        decreases moves@.len() - j,
    {
        proof {
            assert(moves@.subrange(0, j + 1 as int).drop_last() =~= moves@.subrange(0, j as int));
            assert(moves@.subrange(0, j + 1 as int).last() == moves@[j as int]);
        }
        if moves[j].id == id {
            c = c + 1;
        }
        j = j + 1;
    }
    proof {
        assert(moves@.subrange(0, moves@.len() as int) =~= moves@);
    }
    c
}

/// The direction of the first entry of `moves` that carries `id`.
fn find_move_direction(moves: &Vec<Move>, id: u32) -> (r: Option<Direction>)
    ensures
        match r {
            Some(d) => exists|j: int|
                0 <= j < moves@.len() && moves@[j].id == id && moves@[j].direction == d,
            None => count_matching(moves@, id) == 0,
        },
{
    let mut j: usize = 0;
    while j < moves.len()
        invariant
            0 <= j <= moves@.len(),
            forall|k: int| 0 <= k < j ==> moves@[k].id != id,
        decreases moves@.len() - j,
    {
        if moves[j].id == id {
            return Some(moves[j].direction);
        }
        j = j + 1;
    }
    proof {
        lemma_count_matching_zero(moves@, id);
    }
    None
}

/// True iff every agent's body is non-empty.
fn bodies_nonempty_check(snakes: &Vec<Snake>) -> (r: bool)
    ensures
        r == bodies_nonempty(snake_views(snakes@)),
{
    let mut i: usize = 0;
    while i < snakes.len()
        invariant
            0 <= i <= snakes@.len(),
            forall|k: int| 0 <= k < i ==> snake_views(snakes@)[k].body.len() > 0,
        decreases snakes@.len() - i,
    {
        if snakes[i].body.len() == 0 {
            proof {
                assert(snake_views(snakes@)[i as int].body.len() == 0);
            }
            return false;
        }
        i = i + 1;
    }
    true
}

/// True iff no two agents share an id.
fn ids_unique_check(snakes: &Vec<Snake>) -> (r: bool)
    ensures
        r == ids_unique(snake_views(snakes@)),
{
    let mut i: usize = 0;
    while i < snakes.len()
        invariant
            0 <= i <= snakes@.len(),
            forall|p: int, q: int|
                0 <= p < q < snakes@.len() && p < i ==> snake_views(snakes@)[p].id != snake_views(
                    snakes@,
                )[q].id,
        decreases snakes@.len() - i,
    {
        let mut j: usize = i + 1;
        while j < snakes.len()
            invariant
                0 <= i < j <= snakes@.len(),
                forall|q: int|
                    i < q < snakes@.len() && q < j ==> snake_views(snakes@)[i as int].id
                        != snake_views(snakes@)[q].id,
            decreases snakes@.len() - j,
        {
            if snakes[i].id == snakes[j].id {
                proof {
                    assert(snake_views(snakes@)[i as int].id == snake_views(snakes@)[j as int].id);
                }
                return false;
            }
            j = j + 1;
        }
        i = i + 1;
    }
    true
}

/// True iff `moves` holds exactly one entry per alive agent.
fn move_set_valid_check(moves: &Vec<Move>, snakes: &Vec<Snake>) -> (r: bool)
    ensures
        r == move_set_valid(moves@, snake_views(snakes@)),
{
    let mut i: usize = 0;
    while i < snakes.len()
        invariant
            0 <= i <= snakes@.len(),
            forall|k: int|
                0 <= k < i ==> count_matching(moves@, snake_views(snakes@)[k].id) == 1,
        decreases snakes@.len() - i,
    {
        let c = count_moves_for(moves, snakes[i].id);
        if c != 1 {
            proof {
                assert(count_matching(moves@, snake_views(snakes@)[i as int].id) != 1);
            }
            return false;
        }
        i = i + 1;
    }
    true
}

/// True iff some alive agent carries `id`.
fn contains_id(snakes: &Vec<Snake>, id: u32) -> (r: bool)
    ensures
        r == (exists|i: int|
            0 <= i < snake_views(snakes@).len() && snake_views(snakes@)[i].id == id),
{
    let mut i: usize = 0;
    while i < snakes.len()
        invariant
            0 <= i <= snakes@.len(),
            forall|k: int| 0 <= k < i ==> snake_views(snakes@)[k].id != id,
        decreases snakes@.len() - i,
    {
        if snakes[i].id == id {
            proof {
                assert(snake_views(snakes@)[i as int].id == id);
            }
            return true;
        }
        i = i + 1;
    }
    false
}

/// Movement: every agent steps in its assigned direction, each using
/// only its own prior state.
pub open spec fn moved_snakes(snakes: Seq<SnakeView>, moves: Seq<Move>) -> Seq<SnakeView> {
    snakes.map_values(|s: SnakeView| s.stepped(assigned_direction(moves, s.id)))
}

/// True iff some post-move head rests on `p`.
pub open spec fn food_eaten_at(snakes: Seq<SnakeView>, p: GridPoint) -> bool {
    exists|i: int| 0 <= i < snakes.len() && snakes[i].head() == p
}

/// The food that no post-move head rests on, in its original order.
pub open spec fn remaining_food(food: Seq<GridPoint>, snakes: Seq<SnakeView>) -> Seq<GridPoint> {
    food.filter(|p: GridPoint| !food_eaten_at(snakes, p))
}

/// Feeding: every agent whose post-move head rests on a food coordinate
/// is fed; every other agent is unchanged. The outcome for each agent
/// depends only on its own head and the food set, never on the order in
/// which agents or food items are visited.
pub open spec fn fed_snakes(snakes: Seq<SnakeView>, food: Seq<GridPoint>) -> Seq<SnakeView> {
    snakes.map_values(
        |s: SnakeView|
            if food.contains(s.head()) {
                s.fed()
            } else {
                s
            },
    )
}

/// The elimination verdict for `s`, evaluated strictly against the
/// immutable snapshot `snapshot`: out of bounds, starved, collided with
/// its own body, collided with another agent's body, or lost a
/// head-to-head encounter.
pub open spec fn eliminated(snapshot: Seq<SnakeView>, s: SnakeView, w: int, h: int) -> bool {
    ||| s.is_out_of_bounds(w, h)
    ||| s.health == 0
    ||| spec_body_collision(s, s)
    ||| (exists|j: int|
        0 <= j < snapshot.len() && snapshot[j].id != s.id && spec_body_collision(s, snapshot[j]))
    ||| (exists|j: int|
        0 <= j < snapshot.len() && snapshot[j].id != s.id && spec_lost_head_collision(
            s,
            snapshot[j],
        ))
}

/// Commit: the snapshot agents not eliminated against that same
/// snapshot, in their original relative order.
pub open spec fn surviving_snakes(snapshot: Seq<SnakeView>, w: int, h: int) -> Seq<SnakeView> {
    snapshot.filter(|s: SnakeView| !eliminated(snapshot, s, w, h))
}

/// One full turn: movement, then feeding, then elimination against the
/// post-feeding snapshot, then commit; the turn counter advances by one
/// and the viewpoint id is unchanged.
pub open spec fn stepped_request(r: RequestView, moves: Seq<Move>) -> RequestView {
    let moved = moved_snakes(r.board.snakes, moves);
    let fed = fed_snakes(moved, r.board.food);
    RequestView {
        turn: (r.turn + 1) as u32,
        you: r.you,
        board: BoardView {
            height: r.board.height,
            width: r.board.width,
            food: remaining_food(r.board.food, moved),
            snakes: surviving_snakes(fed, r.board.width as int, r.board.height as int),
        },
    }
}

/// Appending one element to a sequence extends its filtered view by that
/// element exactly when the predicate holds of it.
pub proof fn lemma_filter_push<A>(s: Seq<A>, x: A, pred: spec_fn(A) -> bool)
    ensures
        s.push(x).filter(pred) == (if pred(x) {
            s.filter(pred).push(x)
        } else {
            s.filter(pred)
        }),
{
    reveal(Seq::filter);
    assert(s.push(x).drop_last() =~= s);
    assert(s.push(x).last() == x);
}

/// Every element of a filtered sequence comes from the source sequence.
pub proof fn lemma_filter_in_source<A>(s: Seq<A>, pred: spec_fn(A) -> bool)
    ensures
        forall|k: int|
            0 <= k < s.filter(pred).len() ==> s.contains(#[trigger] s.filter(pred)[k]),
    decreases s.len(),
{
    reveal(Seq::filter);
    if s.len() > 0 {
        let rest = s.drop_last();
        lemma_filter_in_source(rest, pred);
        assert forall|k: int|
            0 <= k < s.filter(pred).len() implies s.contains(#[trigger] s.filter(pred)[k]) by {
            if k < rest.filter(pred).len() {
                assert(rest.contains(rest.filter(pred)[k]));
                let j = choose|j: int| 0 <= j < rest.len() && rest[j] == rest.filter(pred)[k];
                assert(s[j] == s.filter(pred)[k]);
            } else {
                assert(s.filter(pred)[k] == s.last());
                assert(s[s.len() - 1] == s.last());
            }
        }
    }
}

/// Filtering agents with pairwise distinct ids keeps the ids pairwise
/// distinct.
pub proof fn lemma_filter_ids_unique(snakes: Seq<SnakeView>, pred: spec_fn(SnakeView) -> bool)
    requires
        ids_unique(snakes),
    ensures
        ids_unique(snakes.filter(pred)),
    decreases snakes.len(),
{
    if snakes.len() > 0 {
        let rest = snakes.drop_last();
        assert(ids_unique(rest)) by {
            assert(forall|i: int| 0 <= i < rest.len() ==> rest[i] == snakes[i]);
        }
        lemma_filter_ids_unique(rest, pred);
        lemma_filter_push(rest, snakes.last(), pred);
        assert(rest.push(snakes.last()) =~= snakes);
        if pred(snakes.last()) {
            let f = snakes.filter(pred);
            lemma_filter_in_source(rest, pred);
            assert forall|i: int, j: int| 0 <= i < j < f.len() implies f[i].id != f[j].id by {
                if j < f.len() - 1 {
                    assert(rest.filter(pred)[i].id != rest.filter(pred)[j].id);
                } else {
                    assert(f[j] == snakes.last());
                    assert(rest.contains(rest.filter(pred)[i]));
                    let w = choose|w: int| 0 <= w < rest.len() && rest[w] == rest.filter(pred)[i];
                    assert(snakes[w].id != snakes[snakes.len() - 1].id);
                }
            }
        }
    }
}

/// Filtering pairwise distinct points keeps them pairwise distinct.
pub proof fn lemma_filter_points_distinct(food: Seq<GridPoint>, pred: spec_fn(GridPoint) -> bool)
    requires
        points_distinct(food),
    ensures
        points_distinct(food.filter(pred)),
    decreases food.len(),
{
    if food.len() > 0 {
        let rest = food.drop_last();
        assert(points_distinct(rest)) by {
            assert(forall|i: int| 0 <= i < rest.len() ==> rest[i] == food[i]);
        }
        lemma_filter_points_distinct(rest, pred);
        lemma_filter_push(rest, food.last(), pred);
        assert(rest.push(food.last()) =~= food);
        if pred(food.last()) {
            let f = food.filter(pred);
            lemma_filter_in_source(rest, pred);
            assert forall|i: int, j: int| 0 <= i < j < f.len() implies f[i] != f[j] by {
                if j < f.len() - 1 {
                    assert(rest.filter(pred)[i] != rest.filter(pred)[j]);
                } else {
                    assert(f[j] == food.last());
                    assert(rest.contains(rest.filter(pred)[i]));
                    let w = choose|w: int| 0 <= w < rest.len() && rest[w] == rest.filter(pred)[i];
                    assert(food[w] != food[food.len() - 1]);
                }
            }
        }
    }
}

/// A filtered sequence holds exactly the source elements that satisfy
/// the predicate.
pub proof fn lemma_filter_contains_iff<A>(s: Seq<A>, pred: spec_fn(A) -> bool, x: A)
    ensures
        s.filter(pred).contains(x) <==> (s.contains(x) && pred(x)),
{
    if s.filter(pred).contains(x) {
        let k = choose|k: int| 0 <= k < s.filter(pred).len() && s.filter(pred)[k] == x;
        lemma_filter_in_source(s, pred);
        assert(s.contains(s.filter(pred)[k]));
        s.lemma_filter_pred(pred, k);
    }
    if s.contains(x) && pred(x) {
        let i = choose|i: int| 0 <= i < s.len() && s[i] == x;
        s.lemma_filter_contains(pred, i);
    }
}

/// A move-set whose only entry for `id` stands at `k0` counts one for it.
pub proof fn lemma_count_matching_single(moves: Seq<Move>, id: u32, k0: int)
    requires
        0 <= k0 < moves.len(),
        moves[k0].id == id,
        forall|j: int| 0 <= j < moves.len() && j != k0 ==> moves[j].id != id,
    ensures
        count_matching(moves, id) == 1,
    decreases moves.len(),
{
    lemma_count_matching_zero(moves.drop_last(), id);
    if k0 == moves.len() - 1 {
        assert(forall|j: int| 0 <= j < moves.len() - 1 ==> moves.drop_last()[j] == moves[j]);
        assert(count_matching(moves.drop_last(), id) == 0);
    } else {
        lemma_count_matching_single(moves.drop_last(), id, k0);
        assert(moves.last().id != id);
    }
}

/// True iff `food` holds the point `c`.
fn contains_coordinate(food: &Vec<Coordinate>, c: Coordinate) -> (r: bool)
    ensures
        r == point_views(food@).contains(c@),
{
    let mut i: usize = 0;
    while i < food.len()
        invariant
            0 <= i <= food@.len(),
            forall|k: int| 0 <= k < i ==> point_views(food@)[k] != c@,
        decreases food@.len() - i,
    {
        if food[i] == c {
            proof {
                assert(point_views(food@)[i as int] == c@);
            }
            return true;
        }
        i = i + 1;
    }
    proof {
        if point_views(food@).contains(c@) {
            let k = choose|k: int|
                0 <= k < point_views(food@).len() && point_views(food@)[k] == c@;
            assert(point_views(food@)[k] != c@);
        }
    }
    false
}

/// True iff some post-move head rests on `c`.
fn any_head_at(snakes: &Vec<Snake>, c: Coordinate) -> (r: bool)
    requires
        bodies_nonempty(snake_views(snakes@)),
    ensures
        r == food_eaten_at(snake_views(snakes@), c@),
{
    let mut i: usize = 0;
    while i < snakes.len()
        invariant
            bodies_nonempty(snake_views(snakes@)),
            0 <= i <= snakes@.len(),
            forall|k: int| 0 <= k < i ==> snake_views(snakes@)[k].head() != c@,
        decreases snakes@.len() - i,
    {
        proof {
            assert(snake_views(snakes@)[i as int] == snakes@[i as int]@);
            assert(snake_views(snakes@)[i as int].body.len() > 0);
        }
        if snakes[i].head() == c {
            proof {
                assert(snake_views(snakes@)[i as int].head() == c@);
            }
            return true;
        }
        i = i + 1;
    }
    false
}

/// Movement: step every agent in its assigned direction.
fn apply_all_moves(snakes: &Vec<Snake>, moves: &Vec<Move>) -> (r: Vec<Snake>)
    requires
        bodies_nonempty(snake_views(snakes@)),
        heads_movable(snake_views(snakes@)),
        move_set_valid(moves@, snake_views(snakes@)),
    ensures
        snake_views(r@) == moved_snakes(snake_views(snakes@), moves@),
{
    let ghost views = snake_views(snakes@);
    let mut r: Vec<Snake> = Vec::new();
    let mut i: usize = 0;
    while i < snakes.len()
        invariant
            views == snake_views(snakes@),
            bodies_nonempty(views),
            heads_movable(views),
            move_set_valid(moves@, views),
            0 <= i <= snakes@.len(),
            r@.len() == i,
            forall|k: int|
                0 <= k < i ==> snake_views(r@)[k] == moved_snakes(views, moves@)[k],
        decreases snakes@.len() - i,
    {
        let d = match find_move_direction(moves, snakes[i].id) {
            Some(d) => d,
            None => {
                proof {
                    assert(count_matching(moves@, views[i as int].id) == 1);
                    assert(false);
                }
                Direction::Up
            },
        };
        proof {
            let j = choose|j: int|
                0 <= j < moves@.len() && moves@[j].id == snakes@[i as int]@.id
                    && moves@[j].direction == d;
            lemma_assigned_direction(moves@, views[i as int].id, j);
        }
        let mut s = snakes[i].clone();
        proof {
            assert(s@ == views[i as int]);
            assert(views[i as int].body.len() > 0);
        }
        s.apply_move(d);
        let ghost prev = r@;
        r.push(s);
        proof {
            assert(moved_snakes(views, moves@)[i as int] == views[i as int].stepped(
                assigned_direction(moves@, views[i as int].id),
            ));
            assert forall|k: int|
                0 <= k < i + 1 implies snake_views(r@)[k] == moved_snakes(views, moves@)[k] by {
                if k < i {
                    assert(snake_views(prev)[k] == moved_snakes(views, moves@)[k]);
                    assert(snake_views(r@)[k] == snake_views(prev)[k]);
                } else {
                    assert(snake_views(r@)[k] == s@);
                }
            }
        }
        i = i + 1;
    }
    proof {
        assert(snake_views(r@) =~= moved_snakes(views, moves@));
    }
    r
}

/// Feeding: keep the food that no post-move head rests on, in order.
fn keep_uneaten_food(food: &Vec<Coordinate>, moved: &Vec<Snake>) -> (r: Vec<Coordinate>)
    requires
        bodies_nonempty(snake_views(moved@)),
    ensures
        point_views(r@) == remaining_food(point_views(food@), snake_views(moved@)),
{
    let ghost views = snake_views(moved@);
    let ghost pred = |p: GridPoint| !food_eaten_at(views, p);
    let mut r: Vec<Coordinate> = Vec::new();
    let mut i: usize = 0;
    while i < food.len()
        invariant
            views == snake_views(moved@),
            pred == (|p: GridPoint| !food_eaten_at(views, p)),
            bodies_nonempty(views),
            0 <= i <= food@.len(),
            point_views(r@) == point_views(food@).subrange(0, i as int).filter(pred),
        decreases food@.len() - i,
    {
        let eaten = any_head_at(moved, food[i]);
        proof {
            lemma_filter_push(point_views(food@).subrange(0, i as int), point_views(food@)[i as int], pred);
            assert(point_views(food@).subrange(0, i + 1 as int) =~= point_views(food@).subrange(
                0,
                i as int,
            ).push(point_views(food@)[i as int]));
        }
        if !eaten {
            r.push(food[i]);
            proof {
                assert(point_views(r@) =~= point_views(r@.drop_last()).push(
                    point_views(food@)[i as int],
                ));
            }
        }
        i = i + 1;
    }
    proof {
        assert(point_views(food@).subrange(0, food@.len() as int) =~= point_views(food@));
    }
    r
}

/// Feeding: feed every agent whose post-move head rests on food.
fn feed_on_food(moved: &Vec<Snake>, food: &Vec<Coordinate>) -> (r: Vec<Snake>)
    requires
        bodies_nonempty(snake_views(moved@)),
    ensures
        snake_views(r@) == fed_snakes(snake_views(moved@), point_views(food@)),
{
    let ghost views = snake_views(moved@);
    let mut r: Vec<Snake> = Vec::new();
    let mut i: usize = 0;
    while i < moved.len()
        invariant
            views == snake_views(moved@),
            bodies_nonempty(views),
            0 <= i <= moved@.len(),
            r@.len() == i,
            forall|k: int|
                0 <= k < i ==> snake_views(r@)[k] == fed_snakes(views, point_views(food@))[k],
        decreases moved@.len() - i,
    {
        let mut s = moved[i].clone();
        proof {
            assert(s@ == views[i as int]);
            assert(views[i as int].body.len() > 0);
        }
        if contains_coordinate(food, s.head()) {
            s.feed();
        }
        let ghost prev = r@;
        r.push(s);
        proof {
            assert(fed_snakes(views, point_views(food@))[i as int] == if point_views(
                food@,
            ).contains(views[i as int].head()) {
                views[i as int].fed()
            } else {
                views[i as int]
            });
            assert forall|k: int|
                0 <= k < i + 1 implies snake_views(r@)[k] == fed_snakes(
                views,
                point_views(food@),
            )[k] by {
                if k < i {
                    assert(snake_views(prev)[k] == fed_snakes(views, point_views(food@))[k]);
                    assert(snake_views(r@)[k] == snake_views(prev)[k]);
                } else {
                    assert(snake_views(r@)[k] == s@);
                }
            }
        }
        i = i + 1;
    }
    proof {
        assert(snake_views(r@) =~= fed_snakes(views, point_views(food@)));
    }
    r
}

/// True iff `s`'s head lies in the body of some other snapshot agent.
fn collides_with_other_body(snapshot: &Vec<Snake>, s: &Snake) -> (r: bool)
    requires
        s@.body.len() > 0,
    ensures
        r == (exists|j: int|
            0 <= j < snake_views(snapshot@).len() && snake_views(snapshot@)[j].id != s@.id
                && spec_body_collision(s@, snake_views(snapshot@)[j])),
{
    let mut j: usize = 0;
    while j < snapshot.len()
        invariant
            s@.body.len() > 0,
            0 <= j <= snapshot@.len(),
            forall|k: int|
                0 <= k < j ==> !(snake_views(snapshot@)[k].id != s@.id && spec_body_collision(
                    s@,
                    snake_views(snapshot@)[k],
                )),
        decreases snapshot@.len() - j,
    {
        if snapshot[j].id != s.id && Snake::snake_body_collision(s, &snapshot[j]) {
            proof {
                assert(snake_views(snapshot@)[j as int].id != s@.id && spec_body_collision(
                    s@,
                    snake_views(snapshot@)[j as int],
                ));
            }
            return true;
        }
        j = j + 1;
    }
    false
}

/// True iff `s` loses a head-to-head encounter against some other
/// snapshot agent.
fn loses_head_to_other(snapshot: &Vec<Snake>, s: &Snake) -> (r: bool)
    requires
        bodies_nonempty(snake_views(snapshot@)),
        s@.body.len() > 0,
    ensures
        r == (exists|j: int|
            0 <= j < snake_views(snapshot@).len() && snake_views(snapshot@)[j].id != s@.id
                && spec_lost_head_collision(s@, snake_views(snapshot@)[j])),
{
    let mut j: usize = 0;
    while j < snapshot.len()
        invariant
            bodies_nonempty(snake_views(snapshot@)),
            s@.body.len() > 0,
            0 <= j <= snapshot@.len(),
            forall|k: int|
                0 <= k < j ==> !(snake_views(snapshot@)[k].id != s@.id
                    && spec_lost_head_collision(s@, snake_views(snapshot@)[k])),
        decreases snapshot@.len() - j,
    {
        proof {
            assert(snake_views(snapshot@)[j as int] == snapshot@[j as int]@);
            assert(snake_views(snapshot@)[j as int].body.len() > 0);
        }
        if snapshot[j].id != s.id && Snake::snake_lost_head_collision(s, &snapshot[j]) {
            proof {
                assert(snake_views(snapshot@)[j as int].id != s@.id && spec_lost_head_collision(
                    s@,
                    snake_views(snapshot@)[j as int],
                ));
            }
            return true;
        }
        j = j + 1;
    }
    false
}

/// Elimination and commit: every snapshot agent is judged against the
/// whole immutable snapshot, and the survivors keep their order.
fn surviving(snapshot: &Vec<Snake>, width: u8, height: u8) -> (r: Vec<Snake>)
    requires
        bodies_nonempty(snake_views(snapshot@)),
    ensures
        snake_views(r@) == surviving_snakes(
            snake_views(snapshot@),
            width as int,
            height as int,
        ),
{
    let ghost views = snake_views(snapshot@);
    let ghost pred = |s: SnakeView| !eliminated(views, s, width as int, height as int);
    let mut r: Vec<Snake> = Vec::new();
    let mut i: usize = 0;
    while i < snapshot.len()
        invariant
            views == snake_views(snapshot@),
            pred == (|s: SnakeView| !eliminated(views, s, width as int, height as int)),
            bodies_nonempty(views),
            0 <= i <= snapshot@.len(),
            snake_views(r@) == views.subrange(0, i as int).filter(pred),
        decreases snapshot@.len() - i,
    {
        let s = &snapshot[i];
        proof {
            assert(s@ == views[i as int]);
            assert(views[i as int].body.len() > 0);
        }
        let elim = s.out_of_bounds(width, height) || s.health == 0 || Snake::snake_body_collision(
            s,
            s,
        ) || collides_with_other_body(snapshot, s) || loses_head_to_other(snapshot, s);
        proof {
            assert(elim == eliminated(views, views[i as int], width as int, height as int));
            lemma_filter_push(views.subrange(0, i as int), views[i as int], pred);
            assert(views.subrange(0, i + 1 as int) =~= views.subrange(0, i as int).push(
                views[i as int],
            ));
        }
        if !elim {
            let kept = s.clone();
            r.push(kept);
            proof {
                assert(snake_views(r@) =~= snake_views(r@.drop_last()).push(views[i as int]));
            }
        }
        i = i + 1;
    }
    proof {
        assert(views.subrange(0, views.len() as int) =~= views);
    }
    r
}

impl Request {
    /// True iff this branch is over: the viewpoint agent is gone, or at
    /// most one agent is left alive.
    pub fn game_over(&self) -> (r: bool)
        ensures
            r == self@.terminal(),
    {
        if !contains_id(&self.board.snakes, self.you) {
            return true;
        }
        if self.board.snakes.len() <= 1 {
            return true;
        }
        proof {
            let i = choose|i: int|
                0 <= i < snake_views(self.board.snakes@).len() && snake_views(
                    self.board.snakes@,
                )[i].id == self.you;
            assert(self@.board.snakes[i].id == self@.you);
        }
        false
    }

    /// Apply one full move-set: movement, then feeding, then elimination
    /// against the post-feeding snapshot, then commit. On success the
    /// request advances by exactly one turn; on failure it is unchanged
    /// and the error names the defect.
    pub fn make_moves(&mut self, moves: &Vec<Move>) -> (result: Result<(), TransitionError>)
        requires
            points_distinct(old(self)@.board.food),
            heads_movable(old(self)@.board.snakes),
            old(self)@.turn < u32::MAX,
        ensures
            result is Ok <==> (bodies_nonempty(old(self)@.board.snakes) && ids_unique(
                old(self)@.board.snakes,
            ) && move_set_valid(moves@, old(self)@.board.snakes)),
            result == Err::<(), TransitionError>(TransitionError::InvariantViolation) <==> !(
            bodies_nonempty(old(self)@.board.snakes) && ids_unique(old(self)@.board.snakes)),
            result == Err::<(), TransitionError>(TransitionError::MalformedMoveSet) <==> (
            bodies_nonempty(old(self)@.board.snakes) && ids_unique(old(self)@.board.snakes)
                && !move_set_valid(moves@, old(self)@.board.snakes)),
            result is Ok ==> final(self)@ == stepped_request(old(self)@, moves@),
            result is Err ==> final(self)@ == old(self)@,
    {
        if !(bodies_nonempty_check(&self.board.snakes) && ids_unique_check(&self.board.snakes)) {
            return Err(TransitionError::InvariantViolation);
        }
        if !move_set_valid_check(moves, &self.board.snakes) {
            return Err(TransitionError::MalformedMoveSet);
        }
        let moved = apply_all_moves(&self.board.snakes, moves);
        let new_food = keep_uneaten_food(&self.board.food, &moved);
        proof {
            lemma_moved_bodies_nonempty(snake_views(self.board.snakes@), moves@);
        }
        let fed = feed_on_food(&moved, &self.board.food);
        proof {
            lemma_fed_bodies_nonempty(snake_views(moved@), point_views(self.board.food@));
        }
        let survivors = surviving(&fed, self.board.width, self.board.height);
        self.board.snakes = survivors;
        self.board.food = new_food;
        self.turn = self.turn + 1;
        proof {
            assert(self@ =~= stepped_request(old(self)@, moves@));
        }
        Ok(())
    }
}

/// Movement keeps every body non-empty: the stepped body has the same
/// number of segments as before.
pub proof fn lemma_moved_bodies_nonempty(snakes: Seq<SnakeView>, moves: Seq<Move>)
    requires
        bodies_nonempty(snakes),
    ensures
        bodies_nonempty(moved_snakes(snakes, moves)),
{
    assert forall|i: int| 0 <= i < moved_snakes(snakes, moves).len() implies moved_snakes(
        snakes,
        moves,
    )[i].body.len() > 0 by {
        assert(moved_snakes(snakes, moves)[i] == snakes[i].stepped(
            assigned_direction(moves, snakes[i].id),
        ));
    }
}

/// Movement and feeding keep every agent's id: the transition renames
/// nobody.
pub proof fn lemma_fed_ids(snakes: Seq<SnakeView>, moves: Seq<Move>, food: Seq<GridPoint>)
    ensures
        fed_snakes(moved_snakes(snakes, moves), food).len() == snakes.len(),
        forall|i: int|
            0 <= i < snakes.len() ==> #[trigger] fed_snakes(moved_snakes(snakes, moves), food)[i].id
                == snakes[i].id,
{
    let moved = moved_snakes(snakes, moves);
    let fed = fed_snakes(moved, food);
    assert forall|i: int| 0 <= i < snakes.len() implies #[trigger] fed[i].id == snakes[i].id by {
        assert(moved[i] == snakes[i].stepped(assigned_direction(moves, snakes[i].id)));
        assert(fed[i] == if food.contains(moved[i].head()) {
            moved[i].fed()
        } else {
            moved[i]
        });
    }
}

/// One turn preserves well-formedness: bodies stay non-empty, ids stay
/// pairwise distinct, food stays a set, survivors' heads lie on the
/// board, and the turn counter advances by exactly one.
pub proof fn lemma_step_preserves_wf(r: RequestView, moves: Seq<Move>)
    requires
        wf_request(r),
        r.turn < u32::MAX,
    ensures
        wf_request(stepped_request(r, moves)),
        stepped_request(r, moves).turn == r.turn + 1,
        stepped_request(r, moves).you == r.you,
        stepped_request(r, moves).board.width == r.board.width,
        stepped_request(r, moves).board.height == r.board.height,
{
    let moved = moved_snakes(r.board.snakes, moves);
    let fed = fed_snakes(moved, r.board.food);
    let w = r.board.width as int;
    let h = r.board.height as int;
    let pred = |s: SnakeView| !eliminated(fed, s, w, h);
    let survivors = surviving_snakes(fed, w, h);
    lemma_moved_bodies_nonempty(r.board.snakes, moves);
    lemma_fed_bodies_nonempty(moved, r.board.food);
    lemma_fed_ids(r.board.snakes, moves, r.board.food);
    assert(ids_unique(fed));
    lemma_filter_ids_unique(fed, pred);
    lemma_filter_points_distinct(
        r.board.food,
        |p: GridPoint| !food_eaten_at(moved, p),
    );
    lemma_filter_in_source(fed, pred);
    assert forall|i: int|
        0 <= i < survivors.len() implies #[trigger] survivors[i].body.len() > 0 && !survivors[i].is_out_of_bounds(
        w,
        h,
    ) by {
        assert(fed.contains(survivors[i]));
        let j = choose|j: int| 0 <= j < fed.len() && fed[j] == survivors[i];
        assert(fed[j].body.len() > 0);
        fed.lemma_filter_pred(pred, i);
    }
    assert forall|i: int|
        0 <= i < survivors.len() && survivors[i].body.len() > 0 implies i32::MIN
        < #[trigger] survivors[i].head().x < i32::MAX && i32::MIN < survivors[i].head().y
        < i32::MAX by {
        assert(!survivors[i].is_out_of_bounds(w, h));
    }
}

/// Feeding is order-independent on the agent side: what happens to an
/// agent depends only on its own post-move head and the food set. Any
/// agent whose head rests on food is fed — tail duplicated, health
/// reset to full — and every other agent is left exactly as it was,
/// whatever order agents are visited in.
pub proof fn lemma_feeding_pointwise(snakes: Seq<SnakeView>, food: Seq<GridPoint>, i: int)
    requires
        0 <= i < snakes.len(),
    ensures
        fed_snakes(snakes, food).len() == snakes.len(),
        food.contains(snakes[i].head()) ==> fed_snakes(snakes, food)[i] == snakes[i].fed(),
        !food.contains(snakes[i].head()) ==> fed_snakes(snakes, food)[i] == snakes[i],
{
    assert(fed_snakes(snakes, food)[i] == if food.contains(snakes[i].head()) {
        snakes[i].fed()
    } else {
        snakes[i]
    });
}

/// Feeding is order-independent on the food side: rearranging the food
/// items changes neither which agents feed nor which food coordinates
/// are left over.
pub proof fn lemma_feeding_food_order_irrelevant(
    snakes: Seq<SnakeView>,
    f1: Seq<GridPoint>,
    f2: Seq<GridPoint>,
)
    requires
        f1.to_multiset() == f2.to_multiset(),
    ensures
        fed_snakes(snakes, f1) == fed_snakes(snakes, f2),
        forall|p: GridPoint|
            remaining_food(f1, snakes).contains(p) <==> remaining_food(f2, snakes).contains(p),
{
    f1.to_multiset_ensures();
    f2.to_multiset_ensures();
    assert forall|p: GridPoint| f1.contains(p) <==> f2.contains(p) by {
        assert(f1.contains(p) <==> f1.to_multiset().count(p) > 0);
        assert(f2.contains(p) <==> f2.to_multiset().count(p) > 0);
    }
    assert forall|i: int|
        0 <= i < snakes.len() implies fed_snakes(snakes, f1)[i] == fed_snakes(snakes, f2)[i] by {
        lemma_feeding_pointwise(snakes, f1, i);
        lemma_feeding_pointwise(snakes, f2, i);
    }
    assert(fed_snakes(snakes, f1) =~= fed_snakes(snakes, f2));
    let pred = |p: GridPoint| !food_eaten_at(snakes, p);
    assert forall|p: GridPoint|
        remaining_food(f1, snakes).contains(p) <==> remaining_food(f2, snakes).contains(p) by {
        lemma_filter_contains_iff(f1, pred, p);
        lemma_filter_contains_iff(f2, pred, p);
    }
}

/// Elimination is snapshot-deterministic: an agent's verdict depends
/// only on the agent, the board, and the snapshot taken as a set —
/// never on the order agents are iterated in.
pub proof fn lemma_elimination_snapshot_deterministic(
    s1: Seq<SnakeView>,
    s2: Seq<SnakeView>,
    a: SnakeView,
    w: int,
    h: int,
)
    requires
        s1.to_multiset() == s2.to_multiset(),
    ensures
        eliminated(s1, a, w, h) == eliminated(s2, a, w, h),
{
    s1.to_multiset_ensures();
    s2.to_multiset_ensures();
    assert forall|x: SnakeView| s1.contains(x) <==> s2.contains(x) by {
        assert(s1.contains(x) <==> s1.to_multiset().count(x) > 0);
        assert(s2.contains(x) <==> s2.to_multiset().count(x) > 0);
    }
    assert((exists|j: int|
        0 <= j < s1.len() && s1[j].id != a.id && spec_body_collision(a, s1[j])) <==> (exists|j: int|
        0 <= j < s2.len() && s2[j].id != a.id && spec_body_collision(a, s2[j]))) by {
        if exists|j: int| 0 <= j < s1.len() && s1[j].id != a.id && spec_body_collision(a, s1[j]) {
            let j = choose|j: int|
                0 <= j < s1.len() && s1[j].id != a.id && spec_body_collision(a, s1[j]);
            assert(s1.contains(s1[j]));
            let k = choose|k: int| 0 <= k < s2.len() && s2[k] == s1[j];
            assert(0 <= k < s2.len() && s2[k].id != a.id && spec_body_collision(a, s2[k]));
        }
        if exists|j: int| 0 <= j < s2.len() && s2[j].id != a.id && spec_body_collision(a, s2[j]) {
            let j = choose|j: int|
                0 <= j < s2.len() && s2[j].id != a.id && spec_body_collision(a, s2[j]);
            assert(s2.contains(s2[j]));
            let k = choose|k: int| 0 <= k < s1.len() && s1[k] == s2[j];
            assert(0 <= k < s1.len() && s1[k].id != a.id && spec_body_collision(a, s1[k]));
        }
    }
    assert((exists|j: int|
        0 <= j < s1.len() && s1[j].id != a.id && spec_lost_head_collision(a, s1[j])) <==> (exists|
        j: int,
    |
        0 <= j < s2.len() && s2[j].id != a.id && spec_lost_head_collision(a, s2[j]))) by {
        if exists|j: int|
            0 <= j < s1.len() && s1[j].id != a.id && spec_lost_head_collision(a, s1[j]) {
            let j = choose|j: int|
                0 <= j < s1.len() && s1[j].id != a.id && spec_lost_head_collision(a, s1[j]);
            assert(s1.contains(s1[j]));
            let k = choose|k: int| 0 <= k < s2.len() && s2[k] == s1[j];
            assert(0 <= k < s2.len() && s2[k].id != a.id && spec_lost_head_collision(a, s2[k]));
        }
        if exists|j: int|
            0 <= j < s2.len() && s2[j].id != a.id && spec_lost_head_collision(a, s2[j]) {
            let j = choose|j: int|
                0 <= j < s2.len() && s2[j].id != a.id && spec_lost_head_collision(a, s2[j]);
            assert(s2.contains(s2[j]));
            let k = choose|k: int| 0 <= k < s1.len() && s1[k] == s2[j];
            assert(0 <= k < s1.len() && s1[k].id != a.id && spec_lost_head_collision(a, s1[k]));
        }
    }
}

/// The surviving set is snapshot-deterministic: permuting the agents
/// before elimination never changes which agents survive.
pub proof fn lemma_surviving_set_snapshot_deterministic(
    s1: Seq<SnakeView>,
    s2: Seq<SnakeView>,
    w: int,
    h: int,
)
    requires
        s1.to_multiset() == s2.to_multiset(),
    ensures
        forall|a: SnakeView|
            surviving_snakes(s1, w, h).contains(a) <==> surviving_snakes(s2, w, h).contains(a),
{
    s1.to_multiset_ensures();
    s2.to_multiset_ensures();
    let pred1 = |s: SnakeView| !eliminated(s1, s, w, h);
    let pred2 = |s: SnakeView| !eliminated(s2, s, w, h);
    assert forall|a: SnakeView|
        surviving_snakes(s1, w, h).contains(a) <==> surviving_snakes(s2, w, h).contains(a) by {
        lemma_filter_contains_iff(s1, pred1, a);
        lemma_filter_contains_iff(s2, pred2, a);
        lemma_elimination_snapshot_deterministic(s1, s2, a, w, h);
        assert(s1.contains(a) <==> s1.to_multiset().count(a) > 0);
        assert(s2.contains(a) <==> s2.to_multiset().count(a) > 0);
    }
}

/// Feeding keeps every body non-empty: a fed body only grows.
pub proof fn lemma_fed_bodies_nonempty(snakes: Seq<SnakeView>, food: Seq<GridPoint>)
    requires
        bodies_nonempty(snakes),
    ensures
        bodies_nonempty(fed_snakes(snakes, food)),
{
    assert forall|i: int| 0 <= i < fed_snakes(snakes, food).len() implies fed_snakes(
        snakes,
        food,
    )[i].body.len() > 0 by {
        assert(fed_snakes(snakes, food)[i] == if food.contains(snakes[i].head()) {
            snakes[i].fed()
        } else {
            snakes[i]
        });
    }
}

} // verus!
