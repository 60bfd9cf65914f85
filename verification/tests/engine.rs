use std::collections::VecDeque;

use snake_game::{Direction, GameInput, Pos, SnakeColor, SnakeGame};

fn game_with(snake: Vec<(usize, usize)>, direction: Direction, food: (usize, usize)) -> SnakeGame {
    let mut body: VecDeque<Pos> = VecDeque::new();
    for (x, y) in snake {
        body.push_back(Pos { x, y });
    }
    SnakeGame {
        snake: body,
        direction,
        food: Pos { x: food.0, y: food.1 },
        width: 30,
        height: 20,
        game_over: false,
        score: 0,
        buffer: Vec::new(),
    }
}

#[test]
fn reversal_is_rejected_every_other_turn_taken() {
    let all = [
        Direction::Up,
        Direction::Down,
        Direction::Left,
        Direction::Right,
    ];
    for &current in &all {
        for &requested in &all {
            let mut g = game_with(vec![(15, 10)], current, (5, 5));
            g.change_direction(requested);
            let opposite = match current {
                Direction::Up => Direction::Down,
                Direction::Down => Direction::Up,
                Direction::Left => Direction::Right,
                Direction::Right => Direction::Left,
            };
            if requested == opposite {
                assert_eq!(g.direction, current);
            } else {
                assert_eq!(g.direction, requested);
            }
        }
    }
}

#[test]
fn new_game_starts_centered_with_one_cell() {
    let g = SnakeGame::new(30, 20);
    assert_eq!(g.snake.len(), 1);
    assert_eq!(g.snake[0], Pos { x: 15, y: 10 });
    assert_eq!(g.direction, Direction::Right);
    assert_eq!(g.score, 0);
    assert!(!g.game_over);
    assert!(g.food.x >= 1 && g.food.x <= 28);
    assert!(g.food.y >= 1 && g.food.y <= 18);
}

#[test]
fn tick_moves_head_one_cell() {
    let mut g = game_with(vec![(15, 10)], Direction::Right, (5, 5));
    g.update();
    assert!(!g.game_over);
    assert_eq!(g.snake.len(), 1);
    assert_eq!(g.snake[0], Pos { x: 16, y: 10 });
    assert_eq!(g.score, 0);
}

#[test]
fn turning_into_left_wall_ends_the_game() {
    let mut g = game_with(vec![(1, 10)], Direction::Left, (5, 5));
    g.update();
    assert!(g.game_over);
    assert_eq!(g.score, 0);
    assert_eq!(g.snake.len(), 1);
    assert_eq!(g.snake[0], Pos { x: 1, y: 10 });
}

#[test]
fn every_border_is_fatal() {
    let cases = [
        ((1, 10), Direction::Left),
        ((28, 10), Direction::Right),
        ((15, 1), Direction::Up),
        ((15, 18), Direction::Down),
    ];
    for &((x, y), direction) in &cases {
        let mut g = game_with(vec![(x, y)], direction, (5, 5));
        g.update();
        assert!(g.game_over);
    }
}

#[test]
fn eating_food_grows_and_scores() {
    let mut g = game_with(vec![(15, 10)], Direction::Right, (16, 10));
    g.update();
    assert!(!g.game_over);
    assert_eq!(g.score, 1);
    assert_eq!(g.snake.len(), 2);
    assert_eq!(g.snake[0], Pos { x: 16, y: 10 });
    assert_eq!(g.snake[1], Pos { x: 15, y: 10 });
    assert!(g.food.x >= 1 && g.food.x <= 28);
    assert!(g.food.y >= 1 && g.food.y <= 18);
}

#[test]
fn length_is_consumptions_plus_one() {
    let mut g = game_with(vec![(10, 10)], Direction::Right, (11, 10));
    for k in 1..=4usize {
        g.update();
        assert!(!g.game_over);
        assert_eq!(g.score, k);
        assert_eq!(g.snake.len(), k + 1);
        // put the next food directly in the snake's path
        g.food = Pos {
            x: g.snake[0].x + 1,
            y: 10,
        };
    }
}

#[test]
fn moving_onto_body_ends_the_game_with_no_mutation() {
    // head (5,5); body loops back so that the cell below the head is occupied
    let mut g = game_with(vec![(5, 5), (4, 5), (4, 6), (5, 6)], Direction::Down, (20, 10));
    let before: Vec<Pos> = g.snake.iter().cloned().collect();
    g.update();
    assert!(g.game_over);
    let after: Vec<Pos> = g.snake.iter().cloned().collect();
    assert_eq!(before, after);
    assert_eq!(g.score, 0);
}

#[test]
fn moving_onto_departing_tail_is_fatal() {
    // the tail cell (5,6) would be vacated this tick, yet entering it loses
    let mut g = game_with(vec![(5, 5), (6, 5), (6, 6), (5, 6)], Direction::Down, (20, 10));
    g.update();
    assert!(g.game_over);
}

#[test]
fn quit_input_sets_game_over_without_touching_the_body() {
    let mut g = game_with(vec![(15, 10)], Direction::Right, (5, 5));
    g.handle_input(GameInput::Quit);
    assert!(g.game_over);
    assert_eq!(g.snake.len(), 1);
    assert_eq!(g.score, 0);
}

#[test]
fn turn_inputs_obey_the_reversal_guard() {
    let mut g = game_with(vec![(15, 10)], Direction::Right, (5, 5));
    g.handle_input(GameInput::TurnLeft);
    assert_eq!(g.direction, Direction::Right);
    g.handle_input(GameInput::TurnUp);
    assert_eq!(g.direction, Direction::Up);
    g.handle_input(GameInput::TurnDown);
    assert_eq!(g.direction, Direction::Up);
    g.handle_input(GameInput::TurnRight);
    assert_eq!(g.direction, Direction::Right);
}

#[test]
fn color_bands_by_score() {
    let cases = [
        (0, SnakeColor::Green),
        (4, SnakeColor::Green),
        (5, SnakeColor::Cyan),
        (9, SnakeColor::Cyan),
        (10, SnakeColor::Yellow),
        (15, SnakeColor::Magenta),
        (20, SnakeColor::Blue),
        (25, SnakeColor::Red),
        (29, SnakeColor::Red),
        (30, SnakeColor::Orange),
        (1000, SnakeColor::Orange),
    ];
    for &(score, band) in &cases {
        let mut g = game_with(vec![(15, 10)], Direction::Right, (5, 5));
        g.score = score;
        assert_eq!(g.get_snake_color(), band);
    }
}

#[test]
fn buffer_shows_walls_body_food_and_blanks() {
    let mut g = game_with(vec![(2, 1)], Direction::Right, (1, 2));
    g.width = 5;
    g.height = 4;
    g.update_buffer();
    assert_eq!(g.buffer.len(), 4);
    for row in &g.buffer {
        assert_eq!(row.len(), 5);
    }
    for x in 0..5 {
        assert_eq!(g.buffer[0][x], '#');
        assert_eq!(g.buffer[3][x], '#');
    }
    for y in 0..4 {
        assert_eq!(g.buffer[y][0], '#');
        assert_eq!(g.buffer[y][4], '#');
    }
    assert_eq!(g.buffer[1][2], '*');
    assert_eq!(g.buffer[2][1], '@');
    assert_eq!(g.buffer[1][1], ' ');
    assert_eq!(g.buffer[2][2], ' ');
    assert_eq!(g.buffer[2][3], ' ');
    assert_eq!(g.buffer[1][3], ' ');
}

#[test]
fn food_under_snake_is_drawn_as_food() {
    let mut g = game_with(vec![(2, 2), (3, 2)], Direction::Left, (2, 2));
    g.width = 6;
    g.height = 5;
    g.update_buffer();
    assert_eq!(g.buffer[2][2], '@');
    assert_eq!(g.buffer[2][3], '*');
}

#[test]
fn tiny_grid_food_is_pinned_to_the_single_interior_cell() {
    let g = SnakeGame::new(3, 3);
    assert_eq!(g.food, Pos { x: 1, y: 1 });
}
