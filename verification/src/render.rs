use vstd::prelude::*;

use crate::game::{Pos, SnakeGame};

verus! {

/// The marker the compositor leaves at one cell of the buffer. The border
/// ring is always a wall; inside it, food covers a body cell it shares a
/// cell with (which happens only transiently when food spawns under the
/// snake), the body covers blank, and everything else is blank.
pub open spec fn cell_char(game: SnakeGame, x: int, y: int) -> char {
    if x == 0 || y == 0 || x == game.width - 1 || y == game.height - 1 {
        '#'
    } else if game.food.x == x && game.food.y == y {
        '@'
    } else if exists|i: int|
        0 <= i < game.snake@.len() && (#[trigger] game.snake@[i]).x == x && game.snake@[i].y
            == y {
        '*'
    } else {
        ' '
    }
}

impl SnakeGame {
    /// The marker for one in-grid cell.
    fn cell_char_at(&self, x: usize, y: usize) -> (c: char)
        requires
            x < self.width,
            y < self.height,
        ensures
            c == cell_char(*self, x as int, y as int),
    {
        if x == 0 || y == 0 || x == self.width - 1 || y == self.height - 1 {
            '#'
        } else if self.food.x == x && self.food.y == y {
            '@'
        } else if self.contains_cell(Pos { x, y }) {
            proof {
                let i = choose|i: int|
                    0 <= i < self.snake@.len() && self.snake@[i] == (Pos { x, y });
                assert((self.snake@[i]).x == x as int);
            }
            '*'
        } else {
            proof {
                if exists|i: int|
                    0 <= i < self.snake@.len() && (#[trigger] self.snake@[i]).x == x as int
                        && self.snake@[i].y == y as int {
                    let i = choose|i: int|
                        0 <= i < self.snake@.len() && (#[trigger] self.snake@[i]).x == x as int
                            && self.snake@[i].y == y as int;
                    assert(self.snake@[i] == (Pos { x, y }));
                }
            }
            ' '
        }
    }

    /// Rebuild the whole character buffer from the current state: walls on
    /// the border ring, the snake body, the food, blanks elsewhere, with
    /// the precedence that `cell_char` states. Nothing else changes.
    pub fn update_buffer(&mut self)
        ensures
            final(self).buffer@.len() == old(self).height,
            forall|y: int|
                0 <= y < old(self).height ==> (#[trigger] final(self).buffer@[y])@.len() == old(
                    self,
                ).width,
            forall|y: int, x: int|
                0 <= y < old(self).height && 0 <= x < old(self).width
                    ==> #[trigger] final(self).buffer@[y]@[x] == cell_char(*old(self), x, y),
            final(self).snake@ == old(self).snake@,
            final(self).direction == old(self).direction,
            final(self).food == old(self).food,
            final(self).width == old(self).width,
            final(self).height == old(self).height,
            final(self).game_over == old(self).game_over,
            final(self).score == old(self).score,
    {
        let mut buf: Vec<Vec<char>> = Vec::new();
        let mut y: usize = 0;
        while y < self.height
            invariant
                *self == *old(self),
                y <= self.height,
                buf@.len() == y,
                forall|i: int| 0 <= i < y ==> (#[trigger] buf@[i])@.len() == self.width,
                forall|i: int, x: int|
                    0 <= i < y && 0 <= x < self.width ==> #[trigger] buf@[i]@[x] == cell_char(
                        *self,
                        x,
                        i,
                    ),
            decreases self.height - y,
        {
            let mut row: Vec<char> = Vec::new();
            let mut x: usize = 0;
            while x < self.width
                invariant
                    *self == *old(self),
                    y < self.height,
                    x <= self.width,
                    row@.len() == x,
                    forall|j: int|
                        0 <= j < x ==> #[trigger] row@[j] == cell_char(*self, j, y as int),
                decreases self.width - x,
            {
                row.push(self.cell_char_at(x, y));
                x = x + 1;
            }
            buf.push(row);
            y = y + 1;
        }
        self.buffer = buf;
    }
}

} // verus!
