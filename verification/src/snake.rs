//! Per-agent state and the per-turn primitives of one agent: moving,
//! feeding, and the elimination predicates.

use vstd::prelude::*;

use crate::coordinate::Coordinate;
use crate::coordinate::Direction;
use crate::coordinate::GridPoint;
use crate::coordinate::spec_translate;

verus! {

/// One agent of the game. The head is the first body segment and the
/// length is the number of segments; both are derived from `body` on
/// read and never stored separately.
#[derive(Debug)]
pub struct Snake {
    pub id: u32,
    pub health: u8,
    pub body: Vec<Coordinate>,
}

/// The model of a `Snake`: its body as a sequence of plane points.
pub ghost struct SnakeView {
    pub id: u32,
    pub health: u8,
    pub body: Seq<GridPoint>,
}

impl View for Snake {
    type V = SnakeView;

    open spec fn view(&self) -> SnakeView {
        SnakeView {
            id: self.id,
            health: self.health,
            body: self.body@.map_values(|c: Coordinate| c@),
        }
    }
}

impl SnakeView {
    /// The head is the first body segment.
    pub open spec fn head(self) -> GridPoint {
        self.body[0]
    }

    /// The length is the number of body segments.
    pub open spec fn length(self) -> nat {
        self.body.len()
    }

    /// The agent after moving one step in direction `d`: the last segment
    /// is dropped, the point one step from the pre-move head becomes the
    /// new head, and health falls by one (never below zero).
    pub open spec fn stepped(self, d: Direction) -> SnakeView {
        SnakeView {
            id: self.id,
            health: if self.health == 0 { 0u8 } else { (self.health - 1) as u8 },
            body: seq![spec_translate(self.head(), d)] + self.body.drop_last(),
        }
    }

    /// The agent after eating: the tail segment is duplicated and health
    /// is reset to full.
    pub open spec fn fed(self) -> SnakeView {
        SnakeView { id: self.id, health: 100u8, body: self.body.push(self.body.last()) }
    }

    /// True iff the head lies outside the `w` by `h` board.
    pub open spec fn is_out_of_bounds(self, w: int, h: int) -> bool {
        self.head().x < 0 || self.head().x >= w || self.head().y < 0 || self.head().y >= h
    }
}

/// True iff `a`'s head lies in `b`'s body, `b`'s own head excluded.
/// Self-collision is `spec_body_collision(a, a)`.
pub open spec fn spec_body_collision(a: SnakeView, b: SnakeView) -> bool {
    exists|i: int| 1 <= i < b.body.len() && b.body[i] == a.head()
}

/// True iff `a` and `b` collided head to head and `a` is no longer than
/// `b`; evaluated for both ordered pairs, equal lengths eliminate both.
pub open spec fn spec_lost_head_collision(a: SnakeView, b: SnakeView) -> bool {
    a.head() == b.head() && a.length() <= b.length()
}

impl Clone for Snake {
    fn clone(&self) -> (res: Snake)
        ensures
            res@ == self@,
    {
        let res = Snake {
            id: self.id,
            health: self.health,
            body: crate::cartprod::copy_items(&self.body),
        };
        proof {
            assert(res@.body =~= self@.body);
        }
        res
    }
}

impl Snake {
    /// The current head, the first body segment.
    pub fn head(&self) -> (c: Coordinate)
        requires
            self@.body.len() > 0,
        ensures
            c@ == self@.head(),
    {
        self.body[0]
    }

    /// Duplicates the tail segment.
    fn duplicate_tail(&mut self)
        requires
            old(self)@.body.len() > 0,
        ensures
            final(self)@.body == old(self)@.body.push(old(self)@.body.last()),
            final(self)@.id == old(self)@.id,
            final(self)@.health == old(self)@.health,
    {
        let tail = self.body[self.body.len() - 1];
        self.body.push(tail);
        proof {
            assert(self@.body =~= old(self)@.body.push(old(self)@.body.last()));
        }
    }

    /// Eat one food item: duplicate the tail and reset health to full.
    pub fn feed(&mut self)
        requires
            old(self)@.body.len() > 0,
        ensures
            final(self)@ == old(self)@.fed(),
    {
        self.duplicate_tail();
        self.health = 100;
    }

    /// Move one step in direction `d`: drop the last segment, put the
    /// point one step from the pre-move head in front, lose one health.
    pub fn apply_move(&mut self, direction: Direction)
        requires
            old(self)@.body.len() > 0,
            i32::MIN <= spec_translate(old(self)@.head(), direction).x <= i32::MAX,
            i32::MIN <= spec_translate(old(self)@.head(), direction).y <= i32::MAX,
        ensures
            final(self)@ == old(self)@.stepped(direction),
    {
        let new_head = self.body[0].translate(direction);
        let _ = self.body.pop();
        self.body.insert(0, new_head);
        self.health = if self.health == 0 { 0 } else { self.health - 1 };
        proof {
            assert(self@.body =~= old(self)@.stepped(direction).body);
        }
    }

    /// True iff this agent's head lies outside the board.
    pub fn out_of_bounds(&self, width: u8, height: u8) -> (r: bool)
        requires
            self@.body.len() > 0,
        ensures
            r == self@.is_out_of_bounds(width as int, height as int),
    {
        let head = self.head();
        head.x < 0 || head.x >= width as i32 || head.y < 0 || head.y >= height as i32
    }

    /// True iff `snake1`'s head lies in `snake2`'s body, `snake2`'s own
    /// head excluded.
    pub fn snake_body_collision(snake1: &Snake, snake2: &Snake) -> (r: bool)
        requires
            snake1@.body.len() > 0,
        ensures
            r == spec_body_collision(snake1@, snake2@),
    {
        let head = snake1.head();
        let mut i: usize = 1;
        while i < snake2.body.len()
            invariant
                1 <= i,
                snake1@.body.len() > 0,
                head@ == snake1@.head(),
                i <= snake2@.body.len() || i == 1,
                forall|j: int| 1 <= j < i && j < snake2@.body.len() ==> snake2@.body[j] != head@,
            decreases snake2@.body.len() - i,
        {
            if snake2.body[i] == head {
                proof {
                    assert(snake2@.body[i as int] == snake1@.head());
                }
                return true;
            }
            i = i + 1;
        }
        false
    }

    /// True iff the two heads coincide and `snake1` is no longer than
    /// `snake2`.
    pub fn snake_lost_head_collision(snake1: &Snake, snake2: &Snake) -> (r: bool)
        requires
            snake1@.body.len() > 0,
            snake2@.body.len() > 0,
        ensures
            r == spec_lost_head_collision(snake1@, snake2@),
    {
        let h1 = snake1.head();
        let h2 = snake2.head();
        h1 == h2 && snake1.body.len() <= snake2.body.len()
    }
}

} // verus!
