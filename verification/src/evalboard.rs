//! The evaluation-side view of a game position on the fixed 11-by-11
//! board: agents, food, the end status, and the integer primitives the
//! position evaluator rests on — the per-agent death verdict, grid
//! neighbourhoods against an occupancy bitboard, and the Manhattan
//! metric.

use vstd::prelude::*;

use crate::coordinate::GridPoint;

verus! {

/// A coordinate of the evaluation board.
#[derive(Clone, Copy, Debug, PartialEq, Eq, Hash, Structural)]
pub struct Coordinate {
    pub x: i32,
    pub y: i32,
}

impl View for Coordinate {
    type V = GridPoint;

    open spec fn view(&self) -> GridPoint {
        GridPoint { x: self.x as int, y: self.y as int }
    }
}

impl Coordinate {
    pub fn new(x: i32, y: i32) -> (c: Coordinate)
        ensures
            c@ == (GridPoint { x: x as int, y: y as int }),
    {
        Coordinate { x, y }
    }
}

/// One agent of a recorded position.
#[derive(Debug)]
pub struct Battlesnake {
    pub body: Vec<Coordinate>,
    pub id: u32,
}

/// The model of a `Battlesnake`.
pub ghost struct BattlesnakeView {
    pub body: Seq<GridPoint>,
    pub id: u32,
}

impl View for Battlesnake {
    type V = BattlesnakeView;

    open spec fn view(&self) -> BattlesnakeView {
        BattlesnakeView { body: self.body@.map_values(|c: Coordinate| c@), id: self.id }
    }
}

/// A recorded board position: the agents and the food on it.
#[derive(Debug)]
pub struct Board {
    pub snakes: Vec<Battlesnake>,
    pub food: Vec<Coordinate>,
}

/// The model of a `Board`.
pub ghost struct BoardView {
    pub snakes: Seq<BattlesnakeView>,
    pub food: Seq<GridPoint>,
}

impl View for Board {
    type V = BoardView;

    open spec fn view(&self) -> BoardView {
        BoardView {
            snakes: self.snakes@.map_values(|s: Battlesnake| s@),
            food: self.food@.map_values(|c: Coordinate| c@),
        }
    }
}

/// How a recorded game ended for the evaluated player.
#[derive(Clone, Copy, Debug, PartialEq, Eq, Structural)]
pub enum Status {
    Win,
    Loss,
    Draw,
}

/// True iff `p` lies on the 11-by-11 evaluation board.
pub open spec fn in_arena(p: GridPoint) -> bool {
    0 <= p.x < 11 && 0 <= p.y < 11
}

/// The bit of the occupancy bitboard that stands for `p`.
pub open spec fn cell_bit(p: GridPoint) -> u128
    recommends
        in_arena(p),
{
    (1u128 << ((p.x + 11 * p.y) as u128))
}

/// True iff the occupancy bitboard `bb` marks `p` as blocked.
pub open spec fn blocked(p: GridPoint, bb: u128) -> bool {
    bb & cell_bit(p) != 0
}

/// True iff `head` lies in `body` past its first segment.
pub open spec fn in_tail(body: Seq<GridPoint>, head: GridPoint) -> bool {
    exists|i: int| 1 <= i < body.len() && body[i] == head
}

/// The agents of `board` other than the one carrying `id`, in order.
pub open spec fn other_snakes(board: BoardView, id: u32) -> Seq<BattlesnakeView> {
    board.snakes.filter(|x: BattlesnakeView| x.id != id)
}

/// The death verdict of the original evaluator: starved, out of the
/// 11-by-11 board, head inside the first opposing agent's tail, lost or
/// drew a head-to-head against it, or head inside its own tail.
pub open spec fn spec_dead(snake: BattlesnakeView, state: BoardView, health: u8) -> bool {
    let head = snake.body[0];
    let other = other_snakes(state, snake.id)[0];
    ||| health == 0
    ||| !in_arena(head)
    ||| in_tail(other.body, head)
    ||| (other.body[0] == head && other.body.len() >= snake.body.len())
    ||| in_tail(snake.body, head)
}

/// If no element before `j0` satisfies the predicate and `s[j0]` does,
/// then `s[j0]` heads the filtered sequence.
proof fn lemma_filter_first<A>(s: Seq<A>, pred: spec_fn(A) -> bool, j0: int)
    requires
        0 <= j0 < s.len(),
        pred(s[j0]),
        forall|k: int| 0 <= k < j0 ==> !pred(#[trigger] s[k]),
    ensures
        s.filter(pred).len() >= 1,
        s.filter(pred)[0] == s[j0],
    decreases s.len(),
{
    let rest = s.drop_last();
    crate::board::lemma_filter_push(rest, s.last(), pred);
    assert(rest.push(s.last()) =~= s);
    if j0 == s.len() - 1 {
        lemma_filter_none(rest, pred);
    } else {
        assert(forall|k: int| 0 <= k < rest.len() ==> rest[k] == s[k]);
        lemma_filter_first(rest, pred, j0);
    }
}

/// Filtering keeps nothing when nothing satisfies the predicate.
proof fn lemma_filter_none<A>(s: Seq<A>, pred: spec_fn(A) -> bool)
    requires
        forall|k: int| 0 <= k < s.len() ==> !pred(#[trigger] s[k]),
    ensures
        s.filter(pred).len() == 0,
    decreases s.len(),
{
    if s.len() > 0 {
        let rest = s.drop_last();
        crate::board::lemma_filter_push(rest, s.last(), pred);
        assert(rest.push(s.last()) =~= s);
        assert(forall|k: int| 0 <= k < rest.len() ==> rest[k] == s[k]);
        lemma_filter_none(rest, pred);
    }
}

/// The first agent of `snakes` not carrying `id`, by index.
fn first_other_index(snakes: &Vec<Battlesnake>, id: u32) -> (r: Option<usize>)
    ensures
        match r {
            Some(j) => 0 <= j < snakes@.len() && snakes@[j as int]@.id != id && (forall|k: int|
                0 <= k < j ==> snakes@[k]@.id == id),
            None => forall|k: int| 0 <= k < snakes@.len() ==> snakes@[k]@.id == id,
        },
{
    let mut j: usize = 0;
    while j < snakes.len()
        invariant
            0 <= j <= snakes@.len(),
            forall|k: int| 0 <= k < j ==> snakes@[k]@.id == id,
        decreases snakes@.len() - j,
    {
        if snakes[j].id != id {
            return Some(j);
        }
        j = j + 1;
    }
    None
}

impl Battlesnake {
    /// The death verdict for this agent against the position `state`,
    /// judged with `health` as its current health.
    pub fn dead(&self, state: &Board, health: u8) -> (r: bool)
        requires
            self@.body.len() >= 1,
            other_snakes(state@, self@.id).len() >= 1,
            other_snakes(state@, self@.id)[0].body.len() >= 1,
        ensures
            r == spec_dead(self@, state@, health),
    {
        let my_head = self.body[0];
        if health == 0 {
            return true;
        }
        if my_head.x < 0 || my_head.x > 10 || my_head.y < 0 || my_head.y > 10 {
            return true;
        }
        let ghost views = state@.snakes;
        let ghost pred = |x: BattlesnakeView| x.id != self@.id;
        let j = match first_other_index(&state.snakes, self.id) {
            Some(j) => j,
            None => {
                proof {
                    assert(forall|k: int| 0 <= k < views.len() ==> !pred(#[trigger] views[k]));
                    lemma_filter_none(views, pred);
                    assert(false);
                }
                0
            },
        };
        proof {
            assert(forall|k: int| 0 <= k < j ==> !pred(#[trigger] views[k]));
            lemma_filter_first(views, pred, j as int);
        }
        let other = &state.snakes[j];
        let ghost other_view = other_snakes(state@, self@.id)[0];
        proof {
            assert(other@ == other_view);
        }
        let mut i: usize = 1;
        while i < other.body.len()
            invariant
                other@ == other_view,
                other_view == other_snakes(state@, self@.id)[0],
                my_head@ == self@.body[0],
                1 <= i,
                i <= other@.body.len() || i == 1,
                forall|k: int| 1 <= k < i && k < other@.body.len() ==> other@.body[k] != my_head@,
            decreases other@.body.len() - i,
        {
            if other.body[i] == my_head {
                proof {
                    assert(other@.body[i as int] == my_head@);
                    assert(in_tail(other_snakes(state@, self@.id)[0].body, self@.body[0]));
                }
                return true;
            }
            i = i + 1;
        }
        if other.body[0] == my_head && other.body.len() >= self.body.len() {
            return true;
        }
        let mut i: usize = 1;
        while i < self.body.len()
            invariant
                my_head@ == self@.body[0],
                1 <= i,
                i <= self@.body.len() || i == 1,
                forall|k: int| 1 <= k < i && k < self@.body.len() ==> self@.body[k] != my_head@,
            decreases self@.body.len() - i,
        {
            if self.body[i] == my_head {
                proof {
                    assert(self@.body[i as int] == my_head@);
                    assert(in_tail(self@.body, self@.body[0]));
                }
                return true;
            }
            i = i + 1;
        }
        false
    }
}

/// The absolute value of an unbounded integer.
pub open spec fn abs_int(v: int) -> int {
    if v < 0 {
        -v
    } else {
        v
    }
}

/// The Manhattan distance between two points.
pub open spec fn spec_manhattan(a: GridPoint, b: GridPoint) -> int {
    abs_int(a.x - b.x) + abs_int(a.y - b.y)
}

/// The Manhattan distance between two coordinates.
pub fn manhattan(c1: &Coordinate, c2: &Coordinate) -> (r: i32)
    requires
        -i32::MAX <= c1@.x - c2@.x <= i32::MAX,
        -i32::MAX <= c1@.y - c2@.y <= i32::MAX,
        spec_manhattan(c1@, c2@) <= i32::MAX,
    ensures
        r == spec_manhattan(c1@, c2@),
{
    let dx = c1.x - c2.x;
    let dy = c1.y - c2.y;
    let ax = if dx < 0 {
        -dx
    } else {
        dx
    };
    let ay = if dy < 0 {
        -dy
    } else {
        dy
    };
    ax + ay
}

/// The in-order neighbours of `c`: up, down, left, right.
pub open spec fn neighbour_points(c: GridPoint) -> Seq<GridPoint> {
    seq![
        GridPoint { x: c.x, y: c.y + 1 },
        GridPoint { x: c.x, y: c.y - 1 },
        GridPoint { x: c.x - 1, y: c.y },
        GridPoint { x: c.x + 1, y: c.y },
    ]
}

/// What `successors` returns: the neighbours of `c` that lie on the
/// board and are not blocked by the occupancy bitboard, each weighted
/// one.
pub open spec fn successors_spec(c: GridPoint, bb: u128) -> Seq<(Coordinate, i32)> {
    neighbour_points(c).filter(|p: GridPoint| in_arena(p) && !blocked(p, bb)).map_values(
        |p: GridPoint| (Coordinate { x: p.x as i32, y: p.y as i32 }, 1i32),
    )
}

/// The unit-weight moves available from `coord`: its four neighbours,
/// kept only where they lie on the board and the occupancy bitboard
/// `bb` leaves them free. The board parameter is carried along as the
/// original search interface does, but only the bitboard decides.
pub fn successors(coord: &Coordinate, board: &Board, bb: u128) -> (r: Vec<(Coordinate, i32)>)
    requires
        i32::MIN < coord@.x < i32::MAX,
        i32::MIN < coord@.y < i32::MAX,
    ensures
        r@ == successors_spec(coord@, bb),
{
    let candidates: [Coordinate; 4] = [
        Coordinate { x: coord.x, y: coord.y + 1 },
        Coordinate { x: coord.x, y: coord.y - 1 },
        Coordinate { x: coord.x - 1, y: coord.y },
        Coordinate { x: coord.x + 1, y: coord.y },
    ];
    let ghost pts = neighbour_points(coord@);
    let ghost pred = |p: GridPoint| in_arena(p) && !blocked(p, bb);
    let ghost to_pair = |p: GridPoint| (Coordinate { x: p.x as i32, y: p.y as i32 }, 1i32);
    let mut r: Vec<(Coordinate, i32)> = Vec::new();
    let mut i: usize = 0;
    while i < 4
        invariant
            pts == neighbour_points(coord@),
            pred == (|p: GridPoint| in_arena(p) && !blocked(p, bb)),
            to_pair == (|p: GridPoint| (Coordinate { x: p.x as i32, y: p.y as i32 }, 1i32)),
            0 <= i <= 4,
            forall|k: int| 0 <= k < 4 ==> (#[trigger] candidates@[k])@ == pts[k],
            r@ == pts.subrange(0, i as int).filter(pred).map_values(to_pair),
        decreases 4 - i,
    {
        let c = candidates[i];
        proof {
            crate::board::lemma_filter_push(pts.subrange(0, i as int), pts[i as int], pred);
            assert(pts.subrange(0, i + 1 as int) =~= pts.subrange(0, i as int).push(pts[i as int]));
        }
        if c.x >= 0 && c.x <= 10 && c.y >= 0 && c.y <= 10 {
            let shift: i32 = c.x + c.y * 11;
            proof {
                assert(0 <= shift < 128);
                assert((1u128 << (shift as u128)) == cell_bit(c@));
            }
            if bb & (1u128 << shift as u128) == 0 {
                let ghost prev = r@;
                r.push((c, 1));
                proof {
                    assert(pred(pts[i as int]));
                    assert(r@ =~= prev.push(to_pair(pts[i as int])));
                    assert(r@ =~= pts.subrange(0, i + 1 as int).filter(pred).map_values(to_pair));
                }
            } else {
                proof {
                    assert(blocked(pts[i as int], bb));
                    assert(r@ =~= pts.subrange(0, i + 1 as int).filter(pred).map_values(to_pair));
                }
            }
        } else {
            proof {
                assert(!in_arena(pts[i as int]));
                assert(r@ =~= pts.subrange(0, i + 1 as int).filter(pred).map_values(to_pair));
            }
        }
        i = i + 1;
    }
    proof {
        assert(pts.subrange(0, 4) =~= pts);
    }
    r
}

} // verus!
