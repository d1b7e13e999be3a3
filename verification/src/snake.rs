//! The snake game's state machine: the board, the snake's body, food,
//! score, and the `tick` transition that advances the simulation.

use crate::rng::random_between;
use std::collections::VecDeque;
use vstd::prelude::*;
use vstd::string::StringExecFns;

verus! {

/// A cell of the game grid, 1-indexed in both axes. Coordinate `0` in either
/// axis means "off the board": such a point is never a valid occupied cell,
/// and `(0, 0)` serves as the unrendered sentinel for food that could not be
/// placed on a saturated board.
pub type Point = (usize, usize);

#[derive(PartialEq, Eq, Structural, Clone, Copy, Debug)]
pub enum Direction {
    Up,
    Down,
    Right,
    Left,
}

/// The direction exactly opposite to `d`; a request to turn this way while
/// heading along `d` is an illegal reversal and is ignored.
pub open spec fn opposite_of(d: Direction) -> Direction {
    match d {
        Direction::Up => Direction::Down,
        Direction::Down => Direction::Up,
        Direction::Right => Direction::Left,
        Direction::Left => Direction::Right,
    }
}

pub struct Game {
    /// Once true the game is terminal: no further call mutates the state.
    pub gameover: bool,
    /// The accumulated score; it never decreases.
    pub highscore: usize,
    pub width: usize,
    pub height: usize,
    /// The snake's body, head first, tail last.
    pub snake: VecDeque<Point>,
    /// The direction applied on the last tick.
    pub direction: Direction,
    /// The direction requested for the next tick; differs from `direction`
    /// only by a legal (non-reversing) turn.
    pub next_direction: Direction,
    /// The cells that currently hold food, with no repetitions.
    pub food: Vec<Point>,
}

impl Game {
    /// A point lies outside the playable area `[1, width] x [1, height]`.
    pub open spec fn oob(self, p: Point) -> bool {
        p.0 == 0 || p.1 == 0 || p.0 > self.width || p.1 > self.height
    }

    /// Well-formedness of the game state: the snake is non-empty, free of
    /// duplicates and entirely on the board, the food list holds no
    /// repetitions, and the board dimensions leave room to step past an edge
    /// without overflowing a coordinate.
    pub open spec fn wf(self) -> bool {
        &&& self.width < usize::MAX
        &&& self.height < usize::MAX
        &&& self.snake@.len() >= 1
        &&& self.snake@.no_duplicates()
        &&& (forall|i: int| 0 <= i < self.snake@.len() ==> !self.oob(#[trigger] self.snake@[i]))
        &&& self.food@.no_duplicates()
    }

    /// No food sits on the snake.
    pub open spec fn food_disjoint(self) -> bool {
        forall|i: int| 0 <= i < self.food@.len() ==> !self.snake@.contains(#[trigger] self.food@[i])
    }

    /// The cell `p` is on the board and occupied by neither snake nor food.
    pub open spec fn free_cell(self, p: Point) -> bool {
        cell_free(self.width, self.height, self.snake@, self.food@, p)
    }

    /// The board is saturated: no free cell is left for new food.
    pub open spec fn saturated(self) -> bool {
        grid_full(self.width, self.height, self.snake@, self.food@)
    }

    /// The cell the next tick will try to move the head onto.
    pub open spec fn next_head(self) -> Point {
        step_of(self.snake@[0], self.next_direction)
    }

    /// The next tick crashes: its target cell is off the board or already
    /// part of the snake's body.
    pub open spec fn next_collides(self) -> bool {
        self.oob(self.next_head()) || self.snake@.contains(self.next_head())
    }
}

/// The cell `p` lies inside the playable `[1, width] x [1, height]` area.
pub open spec fn in_grid(width: usize, height: usize, p: Point) -> bool {
    1 <= p.0 <= width && 1 <= p.1 <= height
}

/// The cell `p` is inside the grid and occupied by neither `snake` nor `food`.
pub open spec fn cell_free(
    width: usize,
    height: usize,
    snake: Seq<Point>,
    food: Seq<Point>,
    p: Point,
) -> bool {
    in_grid(width, height, p) && !snake.contains(p) && !food.contains(p)
}

/// Every cell of the grid is occupied: there is nowhere left to place food.
pub open spec fn grid_full(width: usize, height: usize, snake: Seq<Point>, food: Seq<Point>) -> bool {
    forall|p: Point| !(#[trigger] cell_free(width, height, snake, food, p))
}

/// Component-wise comparison of two grid points.
fn point_eq(a: Point, b: Point) -> (r: bool)
    ensures
        r == (a == b),
{
    a.0 == b.0 && a.1 == b.1
}

/// Whether the snake's body occupies `p`.
fn snake_contains(s: &VecDeque<Point>, p: Point) -> (r: bool)
    ensures
        r == s@.contains(p),
{
    let n = s.len();
    let mut i: usize = 0;
    while i < n
        invariant
            n == s@.len(),
            i <= n,
            forall|k: int| 0 <= k < i ==> s@[k] != p,
        decreases n - i,
    {
        if point_eq(s[i], p) {
            return true;
        }
        i += 1;
    }
    false
}

/// Whether the food list holds `p`.
fn food_contains(f: &Vec<Point>, p: Point) -> (r: bool)
    ensures
        r == f@.contains(p),
{
    let n = f.len();
    let mut i: usize = 0;
    while i < n
        invariant
            n == f@.len(),
            i <= n,
            forall|k: int| 0 <= k < i ==> f@[k] != p,
        decreases n - i,
    {
        if point_eq(f[i], p) {
            return true;
        }
        i += 1;
    }
    false
}

/// The cell the head reaches when stepping from `p` in direction `d`: up and
/// left decrement a coordinate, down and right increment one. A decrement is
/// clamped at 0, the off-board value, so that a move over the low edge is
/// flagged by the bounds check instead of wrapping around.
pub open spec fn step_of(p: Point, d: Direction) -> Point {
    match d {
        Direction::Up => (p.0, if p.1 > 0 {
            (p.1 - 1) as usize
        } else {
            0usize
        }),
        Direction::Down => (p.0, (p.1 + 1) as usize),
        Direction::Right => ((p.0 + 1) as usize, p.1),
        Direction::Left => (
            if p.0 > 0 {
                (p.0 - 1) as usize
            } else {
                0usize
            },
            p.1,
        ),
    }
}

/// The score after a food point is eaten: 10 plus a bonus of one percent of
/// the score so far, saturating at the top of the representable range.
pub open spec fn bumped_score(s: usize) -> usize {
    if s + 10 + s / 100 <= usize::MAX {
        (s + 10 + s / 100) as usize
    } else {
        usize::MAX
    }
}

/// Relates the food list after an eating tick to the state before it: the
/// eaten cell `nh` is gone, and one fresh point `fr` with the guarantees of
/// `random_new_food` has been added — off the grown snake, off the remaining
/// food and on the board, or the `(0, 0)` sentinel exactly when the board is
/// saturated.
pub open spec fn spawn_step(g: Game, nh: Point, fr: Point, after: Seq<Point>) -> bool {
    let grown = seq![nh] + g.snake@;
    let midfood = g.food@.remove_value(nh);
    &&& !grown.contains(fr)
    &&& fr != (0usize, 0usize) ==> in_grid(g.width, g.height, fr) && !midfood.contains(fr)
    &&& (fr == (0usize, 0usize)) == grid_full(g.width, g.height, grown, midfood)
    &&& after == (if midfood.contains(fr) {
        midfood
    } else {
        midfood.push(fr)
    })
}

/// The character for a single decimal digit.
pub open spec fn digit_char(d: nat) -> char {
    if d == 0 {
        '0'
    } else if d == 1 {
        '1'
    } else if d == 2 {
        '2'
    } else if d == 3 {
        '3'
    } else if d == 4 {
        '4'
    } else if d == 5 {
        '5'
    } else if d == 6 {
        '6'
    } else if d == 7 {
        '7'
    } else if d == 8 {
        '8'
    } else {
        '9'
    }
}

/// The decimal digit characters of `n`, most significant first, with no
/// sign, padding or separators.
pub open spec fn dec_digits(n: nat) -> Seq<char>
    decreases n,
{
    if n < 10 {
        seq![digit_char(n)]
    } else {
        dec_digits(n / 10).push(digit_char(n % 10))
    }
}

/// Relies on `ToString` for `usize`: the standard library formats an
/// unsigned integer as its plain decimal digits.
#[verifier::external_body]
fn decimal_string(n: usize) -> (r: String)
    ensures
        r@ == dec_digits(n as nat),
{
    n.to_string()
}

/// Score growth law: the score never decreases when it is bumped, and a
/// food-eating tick raises it by exactly 10 plus one percent of the old
/// score — so by at least 10 — whenever that sum is representable.
pub proof fn lemma_score_bump(s: usize)
    ensures
        bumped_score(s) >= s,
        s + 10 + s / 100 <= usize::MAX ==> bumped_score(s) == s + 10 + s / 100,
        s + 10 + s / 100 <= usize::MAX ==> bumped_score(s) >= s + 10,
{
}

/// Prepending a value that a duplicate-free sequence lacks keeps it
/// duplicate-free; membership afterwards is membership before, or equality
/// with the new head.
proof fn lemma_prepend_no_dup(s: Seq<Point>, p: Point)
    requires
        s.no_duplicates(),
        !s.contains(p),
    ensures
        (seq![p] + s).no_duplicates(),
        forall|q: Point| (seq![p] + s).contains(q) == (s.contains(q) || q == p),
{
    let t = seq![p] + s;
    assert forall|a: int, b: int| 0 <= a < t.len() && 0 <= b < t.len() && a != b implies t[a]
        != t[b] by {
        if a == 0 {
            assert(t[b] == s[b - 1]);
        } else if b == 0 {
            assert(t[a] == s[a - 1]);
        } else {
            assert(t[a] == s[a - 1] && t[b] == s[b - 1]);
        }
    }
    assert forall|q: Point| t.contains(q) == (s.contains(q) || q == p) by {
        if s.contains(q) {
            let k = choose|k: int| 0 <= k < s.len() && s[k] == q;
            assert(t[k + 1] == q);
            assert(t.contains(q));
        }
        if q == p {
            assert(t[0] == q);
            assert(t.contains(q));
        }
        if t.contains(q) {
            let k = choose|k: int| 0 <= k < t.len() && t[k] == q;
            if k > 0 {
                assert(s[k - 1] == q);
                assert(s.contains(q));
            }
        }
    }
}

/// Appending a value that a duplicate-free sequence lacks keeps it
/// duplicate-free.
proof fn lemma_push_no_dup(s: Seq<Point>, p: Point)
    requires
        s.no_duplicates(),
        !s.contains(p),
    ensures
        s.push(p).no_duplicates(),
        forall|q: Point| s.push(p).contains(q) == (s.contains(q) || q == p),
{
    let t = s.push(p);
    assert forall|a: int, b: int| 0 <= a < t.len() && 0 <= b < t.len() && a != b implies t[a]
        != t[b] by {
        if a < s.len() && b < s.len() {
            assert(t[a] == s[a] && t[b] == s[b]);
        } else if a < s.len() {
            assert(t[a] == s[a] && t[b] == p);
        } else {
            assert(t[a] == p && t[b] == s[b]);
        }
    }
    assert forall|q: Point| t.contains(q) == (s.contains(q) || q == p) by {
        if s.contains(q) {
            let k = choose|k: int| 0 <= k < s.len() && s[k] == q;
            assert(t[k] == q);
            assert(t.contains(q));
        }
        if q == p {
            assert(t[s.len() as int] == q);
            assert(t.contains(q));
        }
        if t.contains(q) {
            let k = choose|k: int| 0 <= k < t.len() && t[k] == q;
            if k < s.len() {
                assert(s.contains(q));
            }
        }
    }
}

/// Dropping the last element keeps a sequence duplicate-free, and everything
/// it still holds was held before.
proof fn lemma_drop_last_no_dup(s: Seq<Point>)
    requires
        s.no_duplicates(),
        s.len() >= 1,
    ensures
        s.drop_last().no_duplicates(),
        forall|q: Point| s.drop_last().contains(q) ==> s.contains(q),
{
    let t = s.drop_last();
    assert forall|q: Point| t.contains(q) implies s.contains(q) by {
        let k = choose|k: int| 0 <= k < t.len() && t[k] == q;
        assert(s[k] == q);
    }
}

/// On a duplicate-free sequence, `remove_value` removes exactly the one
/// occurrence of `p` (or nothing), and membership of every other value is
/// untouched.
proof fn lemma_remove_value_no_dup(s: Seq<Point>, p: Point)
    requires
        s.no_duplicates(),
    ensures
        s.remove_value(p).no_duplicates(),
        !s.remove_value(p).contains(p),
        forall|q: Point| q != p ==> s.remove_value(p).contains(q) == s.contains(q),
        s.contains(p) ==> s.remove_value(p).len() == s.len() - 1,
        !s.contains(p) ==> s.remove_value(p) == s,
{
    s.index_of_first_ensures(p);
    if s.contains(p) {
        let i = s.index_of_first(p).unwrap();
        let t = s.remove(i);
        s.remove_ensures(i);
        assert forall|a: int, b: int| 0 <= a < t.len() && 0 <= b < t.len() && a != b implies t[a]
            != t[b] by {
            let a0 = if a < i {
                a
            } else {
                a + 1
            };
            let b0 = if b < i {
                b
            } else {
                b + 1
            };
            assert(t[a] == s[a0] && t[b] == s[b0]);
        }
        assert forall|k: int| 0 <= k < t.len() implies t[k] != p by {
            let k0 = if k < i {
                k
            } else {
                k + 1
            };
            assert(t[k] == s[k0]);
        }
        assert(!t.contains(p));
        assert forall|q: Point| q != p implies t.contains(q) == s.contains(q) by {
            if s.contains(q) {
                let k = choose|k: int| 0 <= k < s.len() && s[k] == q;
                if k < i {
                    assert(t[k] == q);
                } else {
                    assert(k != i);
                    assert(t[k - 1] == q);
                }
                assert(t.contains(q));
            }
            if t.contains(q) {
                let k = choose|k: int| 0 <= k < t.len() && t[k] == q;
                let k0 = if k < i {
                    k
                } else {
                    k + 1
                };
                assert(s[k0] == q);
                assert(s.contains(q));
            }
        }
    }
}

/// Removes the food point `p` from the list, if present; the list keeps
/// set semantics (no repetitions).
fn food_remove(f: &mut Vec<Point>, p: Point)
    ensures
        final(f)@ == old(f)@.remove_value(p),
{
    let n = f.len();
    let mut i: usize = 0;
    while i < n
        invariant
            n == f@.len(),
            i <= n,
            f@ == old(f)@,
            forall|k: int| 0 <= k < i ==> f@[k] != p,
        decreases n - i,
    {
        if point_eq(f[i], p) {
            proof {
                old(f)@.index_of_first_ensures(p);
                let idx = old(f)@.index_of_first(p).unwrap();
                assert(old(f)@[idx] == p);
                if idx < i as int {
                    assert(false);
                }
                if idx > i as int {
                    assert(old(f)@[i as int] != p);
                    assert(false);
                }
                assert(idx == i as int);
            }
            f.remove(i);
            return ;
        }
        i += 1;
    }
    proof {
        old(f)@.index_of_first_ensures(p);
        assert(!old(f)@.contains(p));
    }
}

/// Adds the food point `p` to the list unless it is already there; the list
/// keeps set semantics (no repetitions).
fn food_insert(f: &mut Vec<Point>, p: Point)
    ensures
        old(f)@.contains(p) ==> final(f)@ == old(f)@,
        !old(f)@.contains(p) ==> final(f)@ == old(f)@.push(p),
{
    if !food_contains(f, p) {
        f.push(p);
    }
}

impl Game {
    /// Sets up a fresh game: a three-segment snake lying horizontally at
    /// mid-height with its head at `x == 3`, heading right, two food points
    /// at `(7, height / 2)` and `(2, 2)`, score zero, not over.
    ///
    /// The board must leave room for the initial snake; dimensions below 4
    /// are not meaningful. With `height < 6` the fixed food point `(2, 2)`
    /// lands on the initial snake itself, so food disjointness is only
    /// guaranteed from 6 up.
    pub fn new(width: usize, height: usize) -> (r: Game)
        requires
            4 <= width < usize::MAX,
            4 <= height < usize::MAX,
        ensures
            r.wf(),
            r.width == width,
            r.height == height,
            !r.gameover,
            r.highscore == 0,
            r.direction == Direction::Right,
            r.next_direction == Direction::Right,
            r.snake@ =~= seq![(3usize, height / 2), (2usize, height / 2), (1usize, height / 2)],
            r.food@ =~= seq![(7usize, height / 2), (2usize, 2usize)],
            height >= 6 ==> r.food_disjoint(),
    {
        let h: usize = height / 2;
        let mut food: Vec<Point> = Vec::new();
        food.push((7, h));
        food.push((2, 2));

        let mut snake: VecDeque<Point> = VecDeque::new();
        snake.push_back((3, h));
        snake.push_back((2, h));
        snake.push_back((1, h));

        let r = Game {
            gameover: false,
            highscore: 0,
            width,
            height,
            snake,
            direction: Direction::Right,
            next_direction: Direction::Right,
            food,
        };
        assert(r.snake@ =~= seq![(3usize, h), (2usize, h), (1usize, h)]);
        assert(r.food@ =~= seq![(7usize, h), (2usize, 2usize)]);
        r
    }

    /// Records the player's request to head `dir` on the next tick. A request
    /// to reverse straight into the current heading is silently ignored; any
    /// other request overwrites the pending one (last write wins). Nothing
    /// else of the state changes.
    pub fn direction_change(&mut self, dir: Direction)
        ensures
            final(self).gameover == old(self).gameover,
            final(self).highscore == old(self).highscore,
            final(self).width == old(self).width,
            final(self).height == old(self).height,
            final(self).snake == old(self).snake,
            final(self).food == old(self).food,
            final(self).direction == old(self).direction,
            dir == opposite_of(old(self).direction) ==> final(self).next_direction == old(
                self,
            ).next_direction,
            dir != opposite_of(old(self).direction) ==> final(self).next_direction == dir,
    {
        match (self.direction, dir) {
            (Direction::Up, Direction::Down) => {},
            (Direction::Down, Direction::Up) => {},
            (Direction::Right, Direction::Left) => {},
            (Direction::Left, Direction::Right) => {},
            (_, d) => {
                self.next_direction = d;
            },
        }
    }

    /// Whether `p` lies off the playable area, i.e. a move there crashes
    /// into a wall.
    fn is_out_of_bounds(&self, p: Point) -> (r: bool)
        ensures
            r == self.oob(p),
    {
        let (x, y) = p;
        x == 0 || y == 0 || x > self.width || y > self.height
    }

    /// Picks a location for the next food item: a cell occupied by neither
    /// snake nor food. Up to 30 uniform random draws over the whole grid are
    /// tried first; if all of them collide, every free cell is enumerated and
    /// one is drawn from that list. Only on a saturated board — no free cell
    /// at all — does it give up and return the off-board sentinel `(0, 0)`.
    fn random_new_food(&self) -> (r: Point)
        requires
            self.wf(),
        ensures
            !self.snake@.contains(r),
            r != (0usize, 0usize) ==> self.free_cell(r),
            (r == (0usize, 0usize)) == self.saturated(),
    {
        proof {
            assert(!self.oob(self.snake@[0]));
        }
        let mut t: usize = 0;
        while t < 30
            invariant
                self.wf(),
                t <= 30,
                self.snake@[0].0 <= self.width,
                1 <= self.snake@[0].0,
                self.snake@[0].1 <= self.height,
                1 <= self.snake@[0].1,
            decreases 30 - t,
        {
            let cand: Point = (random_between(1, self.width), random_between(1, self.height));
            if !food_contains(&self.food, cand) && !snake_contains(&self.snake, cand) {
                proof {
                    assert(cell_free(self.width, self.height, self.snake@, self.food@, cand));
                    assert(!self.saturated());
                }
                return cand;
            }
            t += 1;
        }

        // The board is crowded: collect every free cell in row-major order
        // and draw among them.
        let mut free: Vec<Point> = Vec::new();
        let mut y: usize = 1;
        while y <= self.height
            invariant
                self.wf(),
                1 <= y <= self.height + 1,
                forall|i: int| 0 <= i < free@.len() ==> self.free_cell(#[trigger] free@[i]),
                forall|p: Point| #[trigger] self.free_cell(p) && p.1 < y ==> free@.contains(p),
            decreases self.height + 1 - y,
        {
            let mut x: usize = 1;
            while x <= self.width
                invariant
                    self.wf(),
                    1 <= y <= self.height,
                    1 <= x <= self.width + 1,
                    forall|i: int| 0 <= i < free@.len() ==> self.free_cell(#[trigger] free@[i]),
                    forall|p: Point| #[trigger] self.free_cell(p) && (p.1 < y || (p.1 == y && p.0
                        < x)) ==> free@.contains(p),
                decreases self.width + 1 - x,
            {
                let cand: Point = (x, y);
                let ghost free0 = free@;
                if !snake_contains(&self.snake, cand) && !food_contains(&self.food, cand) {
                    free.push(cand);
                    proof {
                        assert(free@[free@.len() - 1] == cand);
                    }
                }
                proof {
                    assert forall|p: Point| #[trigger] self.free_cell(p) && (p.1 < y || (p.1 == y
                        && p.0 < x + 1)) implies free@.contains(p) by {
                        if p.1 == y && p.0 == x {
                            assert(p == cand);
                            assert(!self.snake@.contains(p) && !self.food@.contains(p));
                            assert(free@.contains(p));
                        } else {
                            assert(free0.contains(p));
                            let k = choose|k: int| 0 <= k < free0.len() && free0[k] == p;
                            assert(free@[k] == p);
                            assert(free@.contains(p));
                        }
                    }
                }
                x += 1;
            }
            y += 1;
        }

        if free.len() == 0 {
            proof {
                assert forall|p: Point| !(#[trigger] cell_free(
                    self.width,
                    self.height,
                    self.snake@,
                    self.food@,
                    p,
                )) by {
                    if cell_free(self.width, self.height, self.snake@, self.food@, p) {
                        assert(self.free_cell(p));
                        assert(free@.contains(p));
                    }
                }
                assert(self.saturated());
            }
            return (0, 0);
        }
        let idx = random_between(0, free.len() - 1);
        let r = free[idx];
        proof {
            assert(self.free_cell(r));
            assert(cell_free(self.width, self.height, self.snake@, self.food@, r));
            assert(!self.saturated());
        }
        r
    }

    /// Classifies a cell for the renderer: food, the snake's head, a snake
    /// body segment, or empty, in that order of precedence.
    pub fn get_typ(&self, p: &Point) -> (r: &'static str)
        requires
            self.snake@.len() >= 1,
        ensures
            self.food@.contains(*p) ==> r@ == "🍓"@,
            !self.food@.contains(*p) && self.snake@[0] == *p ==> r@ == "🐸"@,
            !self.food@.contains(*p) && self.snake@[0] != *p && self.snake@.contains(*p) ==> r@
                == "🟢"@,
            !self.food@.contains(*p) && !self.snake@.contains(*p) ==> r@ == " "@,
    {
        if food_contains(&self.food, *p) {
            "🍓"
        } else if point_eq(self.snake[0], *p) {
            "🐸"
        } else if snake_contains(&self.snake, *p) {
            "🟢"
        } else {
            " "
        }
    }

    /// A status line for the renderer: the score, prefixed by a game-over
    /// notice once the game has ended.
    pub fn get_score(&self) -> (r: String)
        ensures
            !self.gameover ==> r@ == "Points: "@ + dec_digits(self.highscore as nat),
            self.gameover ==> r@ == "Game is Over! Points: "@ + dec_digits(self.highscore as nat),
    {
        let mut r = if self.gameover {
            String::from_str("Game is Over! Points: ")
        } else {
            String::from_str("Points: ")
        };
        let digits = decimal_string(self.highscore);
        r.append(digits.as_str());
        r
    }

    /// Advances the game by one step. A tick after game over is a no-op.
    /// Otherwise the pending direction is committed and the head steps one
    /// cell that way: onto a wall or the snake's own body the game ends with
    /// everything else untouched; onto a food point the snake grows by one,
    /// the score rises by `10 + score / 100` and a fresh food point is
    /// spawned; onto a free cell the snake moves, dropping its tail.
    pub fn tick(&mut self)
        requires
            old(self).wf(),
        ensures
            final(self).wf(),
            final(self).width == old(self).width,
            final(self).height == old(self).height,
            final(self).highscore >= old(self).highscore,
            old(self).food_disjoint() ==> final(self).food_disjoint(),
            old(self).gameover ==> final(self).gameover && final(self).snake@ == old(self).snake@
                && final(self).food@ == old(self).food@
                && final(self).highscore == old(self).highscore
                && final(self).direction == old(self).direction
                && final(self).next_direction == old(self).next_direction,
            !old(self).gameover ==> final(self).direction == old(self).next_direction
                && final(self).next_direction == old(self).next_direction,
            !old(self).gameover ==> final(self).gameover == old(self).next_collides(),
            !old(self).gameover && final(self).gameover ==> final(self).snake@ == old(self).snake@
                && final(self).food@ == old(self).food@
                && final(self).highscore == old(self).highscore,
            !old(self).gameover && !final(self).gameover
                && old(self).food@.contains(old(self).next_head())
                ==> final(self).snake@ == seq![old(self).next_head()] + old(self).snake@
                && final(self).snake@.len() == old(self).snake@.len() + 1
                && final(self).highscore == bumped_score(old(self).highscore)
                && (exists|fr: Point|
                    #[trigger] spawn_step(*old(self), old(self).next_head(), fr, final(self).food@)),
            !old(self).gameover && !final(self).gameover
                && !old(self).food@.contains(old(self).next_head())
                ==> final(self).snake@ == seq![old(self).next_head()] + old(self).snake@.drop_last()
                && final(self).snake@.len() == old(self).snake@.len()
                && final(self).highscore == old(self).highscore
                && final(self).food@ == old(self).food@,
    {
        if self.gameover {
            return ;
        }
        proof {
            assert(!old(self).oob(old(self).snake@[0]));
        }
        let head: Point = self.snake[0];
        let new_head: Point = match self.next_direction {
            Direction::Up => (
                head.0,
                if head.1 > 0 {
                    head.1 - 1
                } else {
                    0
                },
            ),
            Direction::Down => (head.0, head.1 + 1),
            Direction::Right => (head.0 + 1, head.1),
            Direction::Left => (
                if head.0 > 0 {
                    head.0 - 1
                } else {
                    0
                },
                head.1,
            ),
        };
        proof {
            assert(new_head == old(self).next_head());
        }
        self.direction = self.next_direction;
        if self.is_out_of_bounds(new_head) || snake_contains(&self.snake, new_head) {
            self.gameover = true;
            return ;
        }
        self.snake.push_front(new_head);
        proof {
            lemma_prepend_no_dup(old(self).snake@, new_head);
            assert forall|i: int| 0 <= i < self.snake@.len() implies !self.oob(
                #[trigger] self.snake@[i],
            ) by {
                if i > 0 {
                    assert(self.snake@[i] == old(self).snake@[i - 1]);
                    assert(!old(self).oob(old(self).snake@[i - 1]));
                }
            }
            assert(self.wf());
        }
        if food_contains(&self.food, new_head) {
            let bonus = self.highscore / 100;
            let inc = 10 + bonus;
            if self.highscore <= usize::MAX - inc {
                self.highscore = self.highscore + inc;
            } else {
                self.highscore = usize::MAX;
            }
            proof {
                assert(self.highscore == bumped_score(old(self).highscore));
            }
            food_remove(&mut self.food, new_head);
            proof {
                lemma_remove_value_no_dup(old(self).food@, new_head);
                assert(self.wf());
            }
            let fresh = self.random_new_food();
            let ghost midfood = self.food@;
            food_insert(&mut self.food, fresh);
            proof {
                if !midfood.contains(fresh) {
                    lemma_push_no_dup(midfood, fresh);
                }
                assert(spawn_step(*old(self), new_head, fresh, self.food@));
                if old(self).food_disjoint() {
                    assert forall|i: int| 0 <= i < self.food@.len() implies !self.snake@.contains(
                        #[trigger] self.food@[i],
                    ) by {
                        let q = self.food@[i];
                        if q == fresh {
                        } else {
                            assert(midfood.contains(q));
                            assert(old(self).food@.contains(q) && q != new_head);
                            let k = choose|k: int|
                                0 <= k < old(self).food@.len() && old(self).food@[k] == q;
                            assert(!old(self).snake@.contains(old(self).food@[k]));
                            assert(!self.snake@.contains(q));
                        }
                    }
                }
            }
        } else {
            self.snake.pop_back();
            proof {
                let grown = seq![new_head] + old(self).snake@;
                assert(self.snake@ =~= seq![new_head] + old(self).snake@.drop_last());
                lemma_drop_last_no_dup(grown);
                assert(self.snake@ == grown.drop_last());
                assert forall|i: int| 0 <= i < self.snake@.len() implies !self.oob(
                    #[trigger] self.snake@[i],
                ) by {
                    assert(self.snake@[i] == grown[i]);
                    if i > 0 {
                        assert(grown[i] == old(self).snake@[i - 1]);
                        assert(!old(self).oob(old(self).snake@[i - 1]));
                    }
                }
                if old(self).food_disjoint() {
                    assert forall|i: int| 0 <= i < self.food@.len() implies !self.snake@.contains(
                        #[trigger] self.food@[i],
                    ) by {
                        let q = self.food@[i];
                        assert(!old(self).snake@.contains(q));
                        assert(q != new_head);
                        if self.snake@.contains(q) {
                            assert(grown.contains(q));
                        }
                    }
                }
            }
        }
    }
}

} // verus!
