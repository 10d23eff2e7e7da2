//! The grid environment: snake body, direction, food, and the transition
//! function `step`.
//!
//! Rewards are fixed-point `i64` values counting thousandths of a unit
//! (`1000` stands for `1.0`): a terminal collision yields `-10000`, eating
//! food `1000 * (10 + bonus)`, and an ordinary move `1000 * (5 + bonus)`,
//! where the bonus is the change in distance to the nearest grid edge.

use vstd::prelude::*;

use crate::rng::rand_below;

verus! {

/// Largest accepted grid side. A machine limit only: it keeps the
/// edge-distance shaping term, and with it every reward, well inside `i64`
/// once scaled to thousandths.
pub const MAX_DIM: usize = 1000000;

/// Heading of the snake. The four values form a cycle under `turn_left` /
/// `turn_right`: each is a quarter turn, and four of either are the identity.
#[derive(Clone, Copy, Debug, PartialEq, Eq, Structural)]
pub enum Direction {
    Up,
    Right,
    Down,
    Left,
}

impl Direction {
    /// The heading a quarter turn counter-clockwise from `self`.
    pub open spec fn spec_turn_left(self) -> Direction {
        match self {
            Direction::Up => Direction::Left,
            Direction::Left => Direction::Down,
            Direction::Down => Direction::Right,
            Direction::Right => Direction::Up,
        }
    }

    /// The heading a quarter turn clockwise from `self`.
    pub open spec fn spec_turn_right(self) -> Direction {
        match self {
            Direction::Up => Direction::Right,
            Direction::Right => Direction::Down,
            Direction::Down => Direction::Left,
            Direction::Left => Direction::Up,
        }
    }

    pub fn turn_left(self) -> (r: Direction)
        ensures
            r == self.spec_turn_left(),
    {
        match self {
            Direction::Up => Direction::Left,
            Direction::Left => Direction::Down,
            Direction::Down => Direction::Right,
            Direction::Right => Direction::Up,
        }
    }

    pub fn turn_right(self) -> (r: Direction)
        ensures
            r == self.spec_turn_right(),
    {
        match self {
            Direction::Up => Direction::Right,
            Direction::Right => Direction::Down,
            Direction::Down => Direction::Left,
            Direction::Left => Direction::Up,
        }
    }
}

/// The four headings form a cyclic group under the quarter turns: left and
/// right turns undo one another, and four turns either way are the identity.
pub proof fn lemma_rotation_group(d: Direction)
    ensures
        d.spec_turn_left().spec_turn_right() == d,
        d.spec_turn_right().spec_turn_left() == d,
        d.spec_turn_left().spec_turn_left().spec_turn_left().spec_turn_left() == d,
        d.spec_turn_right().spec_turn_right().spec_turn_right().spec_turn_right() == d,
{
}

/// How an action rotates the current heading: `0` turns left, `2` turns
/// right, and every other value (including the ordinary `1`) leaves the
/// heading unchanged — the explicit permissive fallback for stray action
/// values.
pub open spec fn spec_rotate(d: Direction, action: u8) -> Direction {
    if action == 0 {
        d.spec_turn_left()
    } else if action == 2 {
        d.spec_turn_right()
    } else {
        d
    }
}

/// The compressed identity of an environment state: head position, body
/// length, food position and heading. Two physically different bodies that
/// agree on these collapse to the same key — an intentional state-space
/// compression.
#[derive(Clone, Copy, Debug, PartialEq, Eq, Structural)]
pub struct StateKey {
    pub head_x: usize,
    pub head_y: usize,
    pub length: usize,
    pub food_x: usize,
    pub food_y: usize,
    pub direction: Direction,
}

/// The key of a freshly reset environment whose food landed on `(fx, fy)`:
/// head at the grid's centre, body length 1, heading Up.
pub open spec fn spec_start_key(width: usize, height: usize, fx: usize, fy: usize) -> StateKey {
    StateKey {
        head_x: (width / 2) as usize,
        head_y: (height / 2) as usize,
        length: 1,
        food_x: fx,
        food_y: fy,
        direction: Direction::Up,
    }
}

/// The cell one step from `head` in direction `d`. Movement toward the
/// origin edge saturates at zero rather than wrapping; the saturated cell is
/// the head itself, which the body check of `step` then flags as a
/// collision.
pub open spec fn spec_next_head(head: (usize, usize), d: Direction) -> (usize, usize)
    recommends
        head.0 < MAX_DIM,
        head.1 < MAX_DIM,
{
    match d {
        Direction::Up => (head.0, if head.1 == 0 { 0usize } else { (head.1 - 1) as usize }),
        Direction::Down => (head.0, (head.1 + 1) as usize),
        Direction::Left => (if head.0 == 0 { 0usize } else { (head.0 - 1) as usize }, head.1),
        Direction::Right => ((head.0 + 1) as usize, head.1),
    }
}

/// Distance from a cell to the nearest grid edge: the least of the four
/// distances to the left, top, right and bottom borders.
pub open spec fn spec_distance_to_edge(x: usize, y: usize, width: usize, height: usize) -> int
    recommends
        x < width,
        y < height,
{
    vstd::math::min(
        vstd::math::min(x as int, y as int),
        vstd::math::min(width - 1 - x, height - 1 - y),
    )
}

/// The edge-distance change that shapes the reward of a non-terminal move.
pub open spec fn spec_proximity_bonus(
    old_head: (usize, usize),
    new_head: (usize, usize),
    width: usize,
    height: usize,
) -> int {
    spec_distance_to_edge(new_head.0, new_head.1, width, height) - spec_distance_to_edge(
        old_head.0,
        old_head.1,
        width,
        height,
    )
}

pub struct SnakeEnv {
    pub width: usize,
    pub height: usize,
    /// Body cells, head first, tail last.
    pub snake: Vec<(usize, usize)>,
    pub direction: Direction,
    pub food: (usize, usize),
    pub done: bool,
    /// Number of food items eaten since the last reset; always one less
    /// than the body length.
    pub score: usize,
}

impl SnakeEnv {
    /// The grid sides are positive and within the machine limit.
    pub open spec fn dims_ok(self) -> bool {
        &&& 1 <= self.width <= MAX_DIM
        &&& 1 <= self.height <= MAX_DIM
    }

    /// Some in-bounds cell is not covered by the body.
    pub open spec fn has_free_cell(self) -> bool {
        exists|p: (usize, usize)|
            p.0 < self.width && p.1 < self.height && !self.snake@.contains(p)
    }

    /// Well-formedness: valid grid sides; a nonempty body of distinct
    /// in-bounds cells; in-bounds food that avoids the body whenever any
    /// cell at all is free of it; and a score that counts the growth of the
    /// body.
    pub open spec fn wf(self) -> bool {
        &&& self.dims_ok()
        &&& self.snake@.len() >= 1
        &&& forall|i: int|
            0 <= i < self.snake@.len() ==> (#[trigger] self.snake@[i]).0 < self.width
                && self.snake@[i].1 < self.height
        &&& self.snake@.no_duplicates()
        &&& self.food.0 < self.width && self.food.1 < self.height
        &&& self.has_free_cell() ==> !self.snake@.contains(self.food)
        &&& self.score == self.snake@.len() - 1
    }

    /// The compressed key of the current state.
    pub open spec fn spec_state_key(self) -> StateKey
        recommends
            self.snake@.len() >= 1,
    {
        StateKey {
            head_x: self.snake@[0].0,
            head_y: self.snake@[0].1,
            length: self.snake@.len() as usize,
            food_x: self.food.0,
            food_y: self.food.1,
            direction: self.direction,
        }
    }

    pub fn new(width: usize, height: usize) -> (r: SnakeEnv)
        requires
            1 <= width <= MAX_DIM,
            1 <= height <= MAX_DIM,
        ensures
            r.wf(),
            r.width == width,
            r.height == height,
            r.snake@.len() == 1,
            r.snake@[0] == ((width / 2, height / 2)),
            r.direction == Direction::Up,
            !r.done,
            r.score == 0,
    {
        let mut snake: Vec<(usize, usize)> = Vec::new();
        snake.push((width / 2, height / 2));
        let mut env = SnakeEnv {
            width,
            height,
            snake,
            direction: Direction::Up,
            food: (0, 0),
            done: false,
            score: 0,
        };
        env.place_food();
        env
    }

    pub fn reset(&mut self)
        requires
            old(self).dims_ok(),
        ensures
            final(self).wf(),
            final(self).width == old(self).width,
            final(self).height == old(self).height,
            final(self).snake@.len() == 1,
            final(self).snake@[0] == ((old(self).width / 2, old(self).height / 2)),
            final(self).direction == Direction::Up,
            !final(self).done,
            final(self).score == 0,
    {
        let mut snake: Vec<(usize, usize)> = Vec::new();
        snake.push((self.width / 2, self.height / 2));
        self.snake = snake;
        self.direction = Direction::Up;
        self.done = false;
        self.score = 0;
        self.food = (0, 0);
        self.place_food();
    }

    /// The compressed state identity used to index the value table.
    pub fn get_state(&self) -> (r: StateKey)
        requires
            self.snake@.len() >= 1,
        ensures
            r == self.spec_state_key(),
    {
        let head = self.snake[0];
        StateKey {
            head_x: head.0,
            head_y: head.1,
            length: self.snake.len(),
            food_x: self.food.0,
            food_y: self.food.1,
            direction: self.direction,
        }
    }

    /// Every action is always legal — exactly `{0, 1, 2}`, whatever the
    /// simulation state; unsafe actions are never pre-filtered.
    pub fn legal_actions(&self) -> (r: Vec<u8>)
        ensures
            r@ =~= seq![0u8, 1u8, 2u8],
    {
        let mut v: Vec<u8> = Vec::new();
        v.push(0);
        v.push(1);
        v.push(2);
        v
    }

    /// One transition of the simulation: rotate the heading by `action`
    /// (`0` left, `2` right, anything else straight), move the head one
    /// cell, and resolve the move.
    ///
    /// A move out of bounds or onto the body is terminal: the body, food
    /// and score stay as they were, `done` is set, and the reward is
    /// `-10.0` (`-10000` in thousandths). Eating the food prepends the new
    /// head, keeps the tail (the body grows by one), raises the score and
    /// places fresh food, with reward `10.0` plus the proximity bonus. Any
    /// other move prepends the new head and drops the tail (length
    /// unchanged), with reward `5.0` plus the proximity bonus.
    ///
    /// Returns the key of the resulting state, the reward, and the `done`
    /// flag as it stands after the move.
    #[verifier::rlimit(60)]
    pub fn step(&mut self, action: u8) -> (r: (StateKey, i64, bool))
        requires
            old(self).wf(),
        ensures
            final(self).wf(),
            final(self).width == old(self).width,
            final(self).height == old(self).height,
            final(self).direction == spec_rotate(old(self).direction, action),
            r.0 == final(self).spec_state_key(),
            ({
                let nh = spec_next_head(
                    old(self).snake@[0],
                    spec_rotate(old(self).direction, action),
                );
                let pb = spec_proximity_bonus(
                    old(self).snake@[0],
                    nh,
                    old(self).width,
                    old(self).height,
                );
                if nh.0 >= old(self).width || nh.1 >= old(self).height
                    || old(self).snake@.contains(nh) {
                    &&& final(self).snake@ == old(self).snake@
                    &&& final(self).food == old(self).food
                    &&& final(self).score == old(self).score
                    &&& final(self).done == true
                    &&& r.1 == -10000
                    &&& r.2 == true
                } else if nh == old(self).food {
                    &&& final(self).snake@ == old(self).snake@.insert(0, nh)
                    &&& final(self).score == old(self).score + 1
                    &&& final(self).done == old(self).done
                    &&& r.1 == 1000 * (10 + pb)
                    &&& r.2 == old(self).done
                } else {
                    &&& final(self).snake@ == old(self).snake@.insert(0, nh).drop_last()
                    &&& final(self).food == old(self).food
                    &&& final(self).score == old(self).score
                    &&& final(self).done == old(self).done
                    &&& r.1 == 1000 * (5 + pb)
                    &&& r.2 == old(self).done
                }
            }),
    {
        let old_head = self.snake[0];
        let old_distance = distance_to_edge(old_head.0, old_head.1, self.width, self.height);
        if action == 0 {
            self.direction = self.direction.turn_left();
        } else if action == 2 {
            self.direction = self.direction.turn_right();
        }
        let head = self.snake[0];
        let new_head: (usize, usize) = match self.direction {
            Direction::Up => (head.0, if head.1 == 0 { 0 } else { head.1 - 1 }),
            Direction::Down => (head.0, head.1 + 1),
            Direction::Left => (if head.0 == 0 { 0 } else { head.0 - 1 }, head.1),
            Direction::Right => (head.0 + 1, head.1),
        };
        assert(new_head == spec_next_head(
            old(self).snake@[0],
            spec_rotate(old(self).direction, action),
        ));
        if new_head.0 >= self.width || new_head.1 >= self.height {
            self.done = true;
            return (self.get_state(), -10000, true);
        }
        if body_contains(&self.snake, new_head) {
            self.done = true;
            return (self.get_state(), -10000, true);
        }
        proof {
            assert(old(self).has_free_cell());
        }
        self.snake.insert(0, new_head);
        proof {
            lemma_insert_head_keeps_distinct(old(self).snake@, new_head);
        }
        let new_distance = distance_to_edge(new_head.0, new_head.1, self.width, self.height);
        let proximity_bonus: i64 = new_distance as i64 - old_distance as i64;
        let reward: i64;
        if new_head.0 == self.food.0 && new_head.1 == self.food.1 {
            reward = (10 + proximity_bonus) * 1000;
            self.score = self.snake.len() - 1;
            self.place_food();
        } else {
            reward = (5 + proximity_bonus) * 1000;
            self.snake.pop();
            proof {
                assert(!self.snake@.contains(self.food)) by {
                    assert(forall|i: int|
                        0 <= i < self.snake@.len() ==> #[trigger] self.snake@[i] == new_head
                            || old(self).snake@.contains(self.snake@[i]));
                }
            }
        }
        (self.get_state(), reward, self.done)
    }

    /// Places food on an in-bounds cell off the body whenever some cell is
    /// free: first by bounded rejection sampling, then, should every draw
    /// land on the body, by a deterministic scan. When the body covers the
    /// whole grid the food is left where it was.
    fn place_food(&mut self)
        requires
            old(self).dims_ok(),
            old(self).food.0 < old(self).width,
            old(self).food.1 < old(self).height,
        ensures
            final(self).width == old(self).width,
            final(self).height == old(self).height,
            final(self).snake == old(self).snake,
            final(self).direction == old(self).direction,
            final(self).done == old(self).done,
            final(self).score == old(self).score,
            final(self).food.0 < final(self).width,
            final(self).food.1 < final(self).height,
            final(self).has_free_cell() ==> !final(self).snake@.contains(final(self).food),
    {
        let mut attempts: usize = 0;
        while attempts < 64
            invariant
                *self == *old(self),
                self.width >= 1,
                self.height >= 1,
            decreases 64 - attempts,
        {
            let fx = rand_below(self.width);
            let fy = rand_below(self.height);
            if !body_contains(&self.snake, (fx, fy)) {
                self.food = (fx, fy);
                return;
            }
            attempts = attempts + 1;
        }
        let mut x: usize = 0;
        while x < self.width
            invariant
                *self == *old(self),
                self.width >= 1,
                self.height >= 1,
                x <= self.width,
                forall|p: (usize, usize)|
                    p.0 < x && p.1 < self.height ==> self.snake@.contains(p),
            decreases self.width - x,
        {
            let mut y: usize = 0;
            while y < self.height
                invariant
                    *self == *old(self),
                    self.width >= 1,
                    self.height >= 1,
                    x < self.width,
                    y <= self.height,
                    forall|p: (usize, usize)|
                        p.0 < x && p.1 < self.height ==> self.snake@.contains(p),
                    forall|p: (usize, usize)|
                        p.0 == x && p.1 < y ==> self.snake@.contains(p),
                decreases self.height - y,
            {
                if !body_contains(&self.snake, (x, y)) {
                    self.food = (x, y);
                    return;
                }
                y = y + 1;
            }
            x = x + 1;
        }
        assert(forall|p: (usize, usize)|
            p.0 < self.width && p.1 < self.height ==> self.snake@.contains(p));
    }
}

/// Prepending a cell that the body does not already cover keeps the body
/// free of duplicates.
proof fn lemma_insert_head_keeps_distinct(s: Seq<(usize, usize)>, x: (usize, usize))
    requires
        s.no_duplicates(),
        !s.contains(x),
    ensures
        s.insert(0, x).no_duplicates(),
{
    let t = s.insert(0, x);
    s.insert_ensures(0, x);
    assert forall|i: int, j: int|
        0 <= i < t.len() && 0 <= j < t.len() && i != j implies t[i] != t[j] by {
        if i == 0 && j != 0 {
            assert(t[j] == s[j - 1]);
        } else if j == 0 && i != 0 {
            assert(t[i] == s[i - 1]);
        } else if i != 0 && j != 0 {
            assert(t[i] == s[i - 1] && t[j] == s[j - 1]);
        }
    }
}

/// The least of the four distances from an in-bounds cell to the grid's
/// edges.
pub fn distance_to_edge(x: usize, y: usize, width: usize, height: usize) -> (r: usize)
    requires
        x < width,
        y < height,
    ensures
        r as int == spec_distance_to_edge(x, y, width, height),
        r <= x,
        r <= y,
{
    let mut d = x;
    if y < d {
        d = y;
    }
    let dx = width - 1 - x;
    if dx < d {
        d = dx;
    }
    let dy = height - 1 - y;
    if dy < d {
        d = dy;
    }
    d
}

/// Whether the body covers the cell `p`.
fn body_contains(snake: &Vec<(usize, usize)>, p: (usize, usize)) -> (r: bool)
    ensures
        r == snake@.contains(p),
{
    let mut i: usize = 0;
    while i < snake.len()
        invariant
            i <= snake@.len(),
            forall|j: int| 0 <= j < i ==> snake@[j] != p,
        decreases snake@.len() - i,
    {
        let q = snake[i];
        if q.0 == p.0 && q.1 == p.1 {
            assert(snake@[i as int] == p);
            return true;
        }
        i = i + 1;
    }
    false
}

} // verus!
