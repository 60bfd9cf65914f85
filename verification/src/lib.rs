mod direction;
mod game;
mod leaderboard;
mod render;

pub use direction::opposite;
pub use direction::Direction;
pub use game::color_for_score;
pub use game::in_interior;
pub use game::lemma_food_in_interior;
pub use game::lemma_length_tracks_score;
pub use game::lemma_reversal_guard;
pub use game::turn;
pub use game::GameInput;
pub use game::Pos;
pub use game::SnakeColor;
pub use game::SnakeGame;
pub use leaderboard::all_digits;
pub use leaderboard::digits_of;
pub use leaderboard::digits_value;
pub use leaderboard::first_max_index;
pub use leaderboard::is_digit;
pub use leaderboard::is_sep_at;
pub use leaderboard::is_usize_literal;
pub use leaderboard::line_parses;
pub use leaderboard::parse_score_line;
pub use leaderboard::parse_usize;
pub use leaderboard::score_tail;
pub use leaderboard::sole_sep_at;
pub use leaderboard::sort_scores_desc;
pub use leaderboard::sorted_desc;
pub use leaderboard::stable_sort_desc;
pub use leaderboard::ScoreEntry;
pub use render::cell_char;
