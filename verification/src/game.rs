use vstd::prelude::*;

use std::collections::VecDeque;

use rand::Rng;

use crate::direction::{opposite, Direction};

verus! {

/// A cell of the playfield: 0-indexed column `x` and row `y`.
#[derive(Clone, Copy, PartialEq, Eq, Structural, Debug)]
pub struct Pos {
    pub x: usize,
    pub y: usize,
}

/// The cell lies strictly inside the border ring of a `width` x `height`
/// grid: columns `1..=width-2`, rows `1..=height-2`.
pub open spec fn in_interior(p: Pos, width: usize, height: usize) -> bool {
    &&& 1 <= p.x < width - 1
    &&& 1 <= p.y < height - 1
}

/// The new heading after a turn request: an exact reversal is rejected,
/// anything else (including a repeat of the current heading) is accepted.
pub open spec fn turn(current: Direction, requested: Direction) -> Direction {
    if requested == opposite(current) {
        current
    } else {
        requested
    }
}

/// A keyboard event already mapped to a game action; every other key is
/// ignored by the surrounding input loop and never reaches the engine.
#[derive(Clone, Copy, PartialEq, Eq, Structural, Debug)]
pub enum GameInput {
    Quit,
    TurnUp,
    TurnDown,
    TurnLeft,
    TurnRight,
}

/// Marker for the snake's colour band, selected by score; mapping a band
/// to a concrete terminal colour is the renderer's business.
#[derive(Clone, Copy, PartialEq, Eq, Structural, Debug)]
pub enum SnakeColor {
    Green,
    Cyan,
    Yellow,
    Magenta,
    Blue,
    Red,
    Orange,
}

/// The colour band that belongs to a score: one band per five points,
/// orange from thirty points on.
pub open spec fn color_for_score(score: usize) -> SnakeColor {
    if score <= 4 {
        SnakeColor::Green
    } else if score <= 9 {
        SnakeColor::Cyan
    } else if score <= 14 {
        SnakeColor::Yellow
    } else if score <= 19 {
        SnakeColor::Magenta
    } else if score <= 24 {
        SnakeColor::Blue
    } else if score <= 29 {
        SnakeColor::Red
    } else {
        SnakeColor::Orange
    }
}

/// Relies on rand::Rng::gen_range (with rand::thread_rng) on a half-open
/// usize range: it returns a value of the range and panics only when the
/// range is empty, which the precondition rules out.
#[verifier::external_body]
fn rand_in_range(lo: usize, hi: usize) -> (r: usize)
    requires
        lo < hi,
    ensures
        lo <= r < hi,
{
    rand::thread_rng().gen_range(lo..hi)
}

/// Draw a food cell uniformly from the interior of the grid. The draw does
/// not exclude cells currently occupied by the snake body: food may land
/// under the snake and become visible once the body moves off it.
fn place_food(width: usize, height: usize) -> (p: Pos)
    requires
        width >= 3,
        height >= 3,
    ensures
        in_interior(p, width, height),
{
    Pos { x: rand_in_range(1, width - 1), y: rand_in_range(1, height - 1) }
}

/// A height-row, width-column buffer of blank cells.
fn blank_buffer(width: usize, height: usize) -> (buf: Vec<Vec<char>>)
    ensures
        buf@.len() == height,
        forall|y: int| 0 <= y < height ==> (#[trigger] buf@[y])@.len() == width,
        forall|y: int, x: int|
            0 <= y < height && 0 <= x < width ==> #[trigger] buf@[y]@[x] == ' ',
{
    let mut buf: Vec<Vec<char>> = Vec::new();
    let mut y: usize = 0;
    while y < height
        invariant
            y <= height,
            buf@.len() == y,
            forall|i: int| 0 <= i < y ==> (#[trigger] buf@[i])@.len() == width,
            forall|i: int, x: int|
                0 <= i < y && 0 <= x < width ==> #[trigger] buf@[i]@[x] == ' ',
        decreases height - y,
    {
        let mut row: Vec<char> = Vec::new();
        let mut x: usize = 0;
        while x < width
            invariant
                x <= width,
                row@.len() == x,
                forall|j: int| 0 <= j < x ==> #[trigger] row@[j] == ' ',
            decreases width - x,
        {
            row.push(' ');
            x = x + 1;
        }
        buf.push(row);
        y = y + 1;
    }
    buf
}

/// The whole state of one game: the body cells head first, the current
/// heading, the food cell, the fixed grid size, the terminal flag, the
/// score, and the character buffer the compositor fills each tick.
pub struct SnakeGame {
    pub snake: VecDeque<Pos>,
    pub direction: Direction,
    pub food: Pos,
    pub width: usize,
    pub height: usize,
    pub game_over: bool,
    pub score: usize,
    pub buffer: Vec<Vec<char>>,
}

impl SnakeGame {
    /// No two body cells coincide.
    pub open spec fn body_distinct(self) -> bool {
        forall|i: int, j: int|
            0 <= i < j < self.snake@.len() ==> self.snake@[i] != self.snake@[j]
    }

    /// Well-formedness of a live game: a meaningful grid, a non-empty body
    /// of pairwise distinct interior cells, food in the interior, and a
    /// body exactly one cell longer than the score.
    pub open spec fn wf(self) -> bool {
        &&& self.width >= 3
        &&& self.height >= 3
        &&& self.snake@.len() >= 1
        &&& forall|i: int|
            0 <= i < self.snake@.len() ==> in_interior(
                #[trigger] self.snake@[i],
                self.width,
                self.height,
            )
        &&& self.body_distinct()
        &&& in_interior(self.food, self.width, self.height)
        &&& self.snake@.len() == self.score + 1
    }

    /// The head cell: the front of the body.
    pub open spec fn head(self) -> Pos {
        self.snake@[0]
    }

    /// Column the head would move to this tick, as an unbounded integer.
    pub open spec fn next_head_x(self) -> int {
        match self.direction {
            Direction::Left => self.head().x - 1,
            Direction::Right => self.head().x + 1,
            _ => self.head().x as int,
        }
    }

    /// Row the head would move to this tick, as an unbounded integer.
    pub open spec fn next_head_y(self) -> int {
        match self.direction {
            Direction::Up => self.head().y - 1,
            Direction::Down => self.head().y + 1,
            _ => self.head().y as int,
        }
    }

    /// The tick's target cell leaves the interior: it lies on the border
    /// ring or beyond it. Both edges are treated symmetrically.
    pub open spec fn next_hits_wall(self) -> bool {
        ||| self.next_head_x() <= 0
        ||| self.next_head_y() <= 0
        ||| self.next_head_x() >= self.width - 1
        ||| self.next_head_y() >= self.height - 1
    }

    /// The tick's target cell coincides with a cell of the current body,
    /// the about-to-be-vacated tail included.
    pub open spec fn next_hits_body(self) -> bool {
        exists|i: int|
            0 <= i < self.snake@.len() && (#[trigger] self.snake@[i]).x == self.next_head_x()
                && self.snake@[i].y == self.next_head_y()
    }

    /// The tick is fatal.
    pub open spec fn next_is_fatal(self) -> bool {
        self.next_hits_wall() || self.next_hits_body()
    }

    /// The tick's target cell, once known to fit the grid.
    pub open spec fn next_head(self) -> Pos {
        Pos { x: self.next_head_x() as usize, y: self.next_head_y() as usize }
    }

    /// The tick's target cell holds the food.
    pub open spec fn next_eats(self) -> bool {
        &&& !self.next_is_fatal()
        &&& self.next_head_x() == self.food.x
        &&& self.next_head_y() == self.food.y
    }

    /// Start a game: a one-cell snake centered in the grid, heading Right,
    /// score zero, one food cell drawn from the interior, a blank buffer.
    pub fn new(width: usize, height: usize) -> (game: Self)
        requires
            width >= 3,
            height >= 3,
        ensures
            game.wf(),
            game.width == width,
            game.height == height,
            game.snake@ =~= seq![(Pos { x: width / 2, y: height / 2 })],
            game.direction == Direction::Right,
            !game.game_over,
            game.score == 0,
            in_interior(game.food, width, height),
            game.buffer@.len() == height,
            forall|y: int| 0 <= y < height ==> (#[trigger] game.buffer@[y])@.len() == width,
            forall|y: int, x: int|
                0 <= y < height && 0 <= x < width ==> #[trigger] game.buffer@[y]@[x] == ' ',
    {
        let mut snake: VecDeque<Pos> = VecDeque::new();
        snake.push_back(Pos { x: width / 2, y: height / 2 });
        let buffer = blank_buffer(width, height);
        let food = place_food(width, height);
        Self {
            snake,
            direction: Direction::Right,
            food,
            width,
            height,
            game_over: false,
            score: 0,
            buffer,
        }
    }

    /// Direction state machine: an exact reversal is rejected with no state
    /// change; any other request becomes the current heading.
    pub fn change_direction(&mut self, direction: Direction)
        ensures
            final(self).direction == turn(old(self).direction, direction),
            final(self).snake@ == old(self).snake@,
            final(self).food == old(self).food,
            final(self).width == old(self).width,
            final(self).height == old(self).height,
            final(self).game_over == old(self).game_over,
            final(self).score == old(self).score,
            final(self).buffer@ == old(self).buffer@,
    {
        match (self.direction, direction) {
            (Direction::Up, Direction::Down) | (Direction::Down, Direction::Up) => {},
            (Direction::Left, Direction::Right) | (Direction::Right, Direction::Left) => {},
            _ => {
                self.direction = direction;
            },
        }
    }

    /// Apply one already-decoded key event: a quit request sets the
    /// terminal flag, an arrow key is a turn request under the reversal
    /// guard. Nothing else changes.
    pub fn handle_input(&mut self, input: GameInput)
        ensures
            final(self).game_over == (old(self).game_over || input == GameInput::Quit),
            final(self).direction == (match input {
                GameInput::Quit => old(self).direction,
                GameInput::TurnUp => turn(old(self).direction, Direction::Up),
                GameInput::TurnDown => turn(old(self).direction, Direction::Down),
                GameInput::TurnLeft => turn(old(self).direction, Direction::Left),
                GameInput::TurnRight => turn(old(self).direction, Direction::Right),
            }),
            final(self).snake@ == old(self).snake@,
            final(self).food == old(self).food,
            final(self).width == old(self).width,
            final(self).height == old(self).height,
            final(self).score == old(self).score,
            final(self).buffer@ == old(self).buffer@,
    {
        match input {
            GameInput::Quit => {
                self.game_over = true;
            },
            GameInput::TurnUp => self.change_direction(Direction::Up),
            GameInput::TurnDown => self.change_direction(Direction::Down),
            GameInput::TurnLeft => self.change_direction(Direction::Left),
            GameInput::TurnRight => self.change_direction(Direction::Right),
        }
    }

    /// The colour band of the snake at the current score.
    pub fn get_snake_color(&self) -> (c: SnakeColor)
        ensures
            c == color_for_score(self.score),
    {
        if self.score <= 4 {
            SnakeColor::Green
        } else if self.score <= 9 {
            SnakeColor::Cyan
        } else if self.score <= 14 {
            SnakeColor::Yellow
        } else if self.score <= 19 {
            SnakeColor::Magenta
        } else if self.score <= 24 {
            SnakeColor::Blue
        } else if self.score <= 29 {
            SnakeColor::Red
        } else {
            SnakeColor::Orange
        }
    }

    /// Advance the game one tick. A fatal tick (target cell on or beyond
    /// the border ring, or on any current body cell) only sets the
    /// terminal flag. Otherwise the head advances; on food the body grows
    /// by one, the score by exactly one, and a fresh interior food cell is
    /// drawn; without food the tail cell is dropped and score and food
    /// stay put. Collision is always checked against the pre-move body,
    /// the about-to-be-vacated tail included.
    pub fn update(&mut self)
        requires
            old(self).wf(),
            !old(self).game_over,
        ensures
            final(self).wf(),
            final(self).width == old(self).width,
            final(self).height == old(self).height,
            final(self).direction == old(self).direction,
            final(self).buffer@ == old(self).buffer@,
            old(self).next_is_fatal() ==> {
                &&& final(self).game_over
                &&& final(self).snake@ == old(self).snake@
                &&& final(self).score == old(self).score
                &&& final(self).food == old(self).food
            },
            !old(self).next_is_fatal() ==> {
                &&& !final(self).game_over
                &&& final(self).snake@[0] == old(self).next_head()
                &&& if old(self).next_eats() {
                    &&& final(self).score == old(self).score + 1
                    &&& final(self).snake@ == seq![old(self).next_head()] + old(self).snake@
                    &&& in_interior(final(self).food, old(self).width, old(self).height)
                } else {
                    &&& final(self).score == old(self).score
                    &&& final(self).food == old(self).food
                    &&& final(self).snake@ == seq![old(self).next_head()]
                        + old(self).snake@.drop_last()
                }
            },
    {
        let head: Pos = self.snake[0];
        proof {
            assert(in_interior(old(self).snake@[0], old(self).width, old(self).height));
        }
        let nx: usize;
        let ny: usize;
        match self.direction {
            Direction::Up => {
                nx = head.x;
                ny = head.y - 1;
            },
            Direction::Down => {
                nx = head.x;
                ny = head.y + 1;
            },
            Direction::Left => {
                nx = head.x - 1;
                ny = head.y;
            },
            Direction::Right => {
                nx = head.x + 1;
                ny = head.y;
            },
        }
        proof {
            assert(nx == old(self).next_head_x() && ny == old(self).next_head_y());
        }
        let new_head = Pos { x: nx, y: ny };
        let hits_body = self.contains_cell(new_head);
        if hits_body || nx == 0 || ny == 0 || nx >= self.width - 1 || ny >= self.height - 1 {
            proof {
                if hits_body {
                    let i = choose|i: int|
                        0 <= i < old(self).snake@.len() && old(self).snake@[i] == new_head;
                    assert((old(self).snake@[i]).x == old(self).next_head_x());
                }
            }
            self.game_over = true;
            return ;
        }
        proof {
            assert(!old(self).next_hits_body()) by {
                if old(self).next_hits_body() {
                    let i = choose|i: int|
                        0 <= i < old(self).snake@.len() && (#[trigger] old(self).snake@[i]).x
                            == old(self).next_head_x() && old(self).snake@[i].y == old(
                            self,
                        ).next_head_y();
                    assert(old(self).snake@[i] == new_head);
                }
            }
        }
        self.snake.push_front(new_head);
        proof {
            assert(forall|j: int|
                0 <= j < old(self).snake@.len() ==> old(self).snake@[j] != new_head);
            assert(forall|i: int, j: int|
                0 <= i < j < self.snake@.len() ==> self.snake@[i] != self.snake@[j]) by {
                assert(forall|k: int|
                    1 <= k < self.snake@.len() ==> self.snake@[k] == old(self).snake@[k - 1]);
            }
        }
        if new_head == self.food {
            // the grown body already holds score + 2 cells, so the score
            // increment stays within usize
            let _grown = self.snake.len();
            proof {
                assert(self.score + 2 == _grown);
            }
            self.score = self.score + 1;
            self.food = place_food(self.width, self.height);
        } else {
            let _tail = self.snake.pop_back();
            proof {
                assert(self.snake@ =~= seq![new_head] + old(self).snake@.drop_last());
            }
        }
    }

    /// Whether the body occupies the given cell.
    pub fn contains_cell(&self, p: Pos) -> (r: bool)
        ensures
            r == exists|i: int| 0 <= i < self.snake@.len() && self.snake@[i] == p,
    {
        let mut i: usize = 0;
        while i < self.snake.len()
            invariant
                i <= self.snake@.len(),
                forall|j: int| 0 <= j < i ==> self.snake@[j] != p,
            decreases self.snake@.len() - i,
        {
            if self.snake[i] == p {
                return true;
            }
            i = i + 1;
        }
        false
    }
}

/// Law: requesting the exact opposite of the current heading leaves the
/// heading unchanged; requesting any other direction makes that direction
/// the new heading.
pub proof fn lemma_reversal_guard(current: Direction, requested: Direction)
    ensures
        requested == opposite(current) ==> turn(current, requested) == current,
        requested != opposite(current) ==> turn(current, requested) == requested,
{
}

/// Law: in every well-formed game the body is exactly one cell longer than
/// the score, so a game that starts with one cell and score zero has length
/// exactly k + 1 after k food consumptions.
pub proof fn lemma_length_tracks_score(game: SnakeGame)
    requires
        game.wf(),
    ensures
        game.snake@.len() == game.score + 1,
{
}

/// Law: the food of a well-formed game lies strictly inside the interior,
/// never on the border ring.
pub proof fn lemma_food_in_interior(game: SnakeGame)
    requires
        game.wf(),
    ensures
        1 <= game.food.x < game.width - 1,
        1 <= game.food.y < game.height - 1,
{
}

} // verus!
