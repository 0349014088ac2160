use vstd::prelude::*;
use crate::frame::{Frame, Renderable};

verus! {

/// A key the game engine understands.
#[derive(Clone, Copy, PartialEq, Eq, Structural, Debug)]
pub enum Key {
    Esc,
    Enter,
    Up,
    Down,
    Left,
    Right,
}

/// The games on offer.
#[derive(Clone, Copy, PartialEq, Eq, Structural, Debug)]
pub enum Game {
    Breakout,
    Snake,
    Tetris,
}

impl Game {
    /// How many games are on offer.
    pub fn games_available_count() -> (r: usize)
        ensures
            r == 3,
    {
        3
    }
}

/// The hooks a playable game implements for the engine.
pub trait GameCore: Renderable {
    fn accept_key(&mut self, key: Key);

    fn is_finished(&self) -> Option<Game>;

    fn update(&mut self, now: u64);
}

/// The game-selection menu.
pub struct MainMenu {
    pub games_available: Vec<Game>,
    pub current_chosen_game: usize,
    pub game_chosen: bool,
}

impl MainMenu {
    pub open spec fn wf(self) -> bool {
        &&& self.games_available@.len() == 3
        &&& self.current_chosen_game < self.games_available@.len()
    }

    pub fn create() -> (r: MainMenu)
        ensures
            r.wf(),
            r.games_available@ == seq![Game::Breakout, Game::Snake, Game::Tetris],
            r.current_chosen_game == 0,
            !r.game_chosen,
    {
        let mut games_available: Vec<Game> = Vec::new();
        games_available.push(Game::Breakout);
        games_available.push(Game::Snake);
        games_available.push(Game::Tetris);
        proof {
            assert(games_available@ =~= seq![Game::Breakout, Game::Snake, Game::Tetris]);
        }
        MainMenu { games_available, current_chosen_game: 0, game_chosen: false }
    }

    /// Moves the selection or confirms it.
    pub fn accept_key(&mut self, key: Key)
        requires
            old(self).wf(),
        ensures
            final(self).wf(),
            key == Key::Up && old(self).current_chosen_game > 0 ==> final(self).current_chosen_game == old(self).current_chosen_game - 1,
            key == Key::Down && old(self).current_chosen_game + 1 < old(self).games_available@.len() ==> final(self).current_chosen_game == old(self).current_chosen_game + 1,
            key == Key::Enter ==> final(self).game_chosen,
    {
        match key {
            Key::Up => {
                if self.current_chosen_game > 0 {
                    self.current_chosen_game = self.current_chosen_game - 1;
                }
            },
            Key::Down => {
                if self.current_chosen_game < self.games_available.len() - 1 {
                    self.current_chosen_game = self.current_chosen_game + 1;
                }
            },
            Key::Enter => {
                self.game_chosen = true;
            },
            _ => {},
        }
    }

    /// The confirmed choice, if any.
    pub fn is_finished(&self) -> (r: Option<Game>)
        requires
            self.wf(),
        ensures
            r is Some <==> self.game_chosen,
    {
        if self.game_chosen {
            Some(self.games_available[self.current_chosen_game])
        } else {
            None
        }
    }
}

/// The width of the breakout board in characters.
pub const BOARD_WIDTH: usize = 57;

/// The height of the breakout board in characters.
pub const BOARD_HEIGHT: usize = 30;

/// The width of one brick.
pub const BRICK_WIDTH: usize = 6;

/// The width of the paddle.
pub const PADDLE_SIZE: usize = 5;

/// A game of breakout: a character board, a paddle, a bouncing ball, and
/// bricks to clear.
pub struct Breakout {
    pub board: Vec<char>,
    pub paddle: Vec<usize>,
    pub ball_position: usize,
    pub ball_down: bool,
    pub ball_right: bool,
    pub bricks_count: u16,
    pub is_finished: bool,
    pub last_update_time: u64,
}

impl Breakout {
    /// The board has one cell per position, the paddle is a run of
    /// neighbouring cells on the bottom row, and the ball is on the board.
    pub open spec fn wf(self) -> bool {
        &&& self.board@.len() == BOARD_WIDTH * BOARD_HEIGHT
        &&& self.paddle@.len() == PADDLE_SIZE
        &&& forall|k: int|
            0 <= k < self.paddle@.len() ==> #[trigger] self.paddle@[k] < self.board@.len()
        &&& forall|k: int|
            0 <= k < self.paddle@.len() - 1 ==> #[trigger] self.paddle@[k] + 1 == self.paddle@[k
                + 1]
        &&& self.ball_position < self.board@.len()
    }

    /// Sets up the board: ten rows of bricks, the ball below them, the
    /// paddle centred on the bottom row.
    pub fn create(now: u64) -> (r: Breakout)
        ensures
            r.wf(),
            !r.is_finished,
            r.bricks_count == 80,
            r.board@[r.ball_position as int] == '@',
            forall|k: int|
                0 <= k < r.paddle@.len() ==> r.board@[#[trigger] r.paddle@[k] as int] == '#',
    {
        let board_len: usize = BOARD_WIDTH * BOARD_HEIGHT;
        let mut board: Vec<char> = Vec::new();
        let mut f: usize = 0;
        while f < board_len
            invariant
                0 <= f <= board_len,
                board@.len() == f,
                board_len == BOARD_WIDTH * BOARD_HEIGHT,
            decreases board_len - f,
        {
            board.push(' ');
            f = f + 1;
        }
        let rows_with_bricks: usize = 10;
        let bricks_per_row: usize = (BOARD_WIDTH + 1) / (BRICK_WIDTH + 1);
        let mut bricks_count: u16 = 0;
        let mut row: usize = 0;
        while row < rows_with_bricks
            invariant
                0 <= row <= rows_with_bricks,
                rows_with_bricks == 10,
                bricks_per_row == 8,
                board@.len() == BOARD_WIDTH * BOARD_HEIGHT,
                bricks_count == 8 * row,
            decreases rows_with_bricks - row,
        {
            let mut b: usize = 0;
            while b < bricks_per_row
                invariant
                    0 <= b <= bricks_per_row,
                    0 <= row < 10,
                    bricks_per_row == 8,
                    board@.len() == BOARD_WIDTH * BOARD_HEIGHT,
                    bricks_count == 8 * row + b,
                decreases bricks_per_row - b,
            {
                let start_col: usize = b * (BRICK_WIDTH + 1);
                let base_idx: usize = row * BOARD_WIDTH + start_col;
                let mut c: usize = 0;
                while c < BRICK_WIDTH
                    invariant
                        0 <= c <= BRICK_WIDTH,
                        0 <= row < 10,
                        0 <= b < 8,
                        start_col == b * 7,
                        base_idx == row * BOARD_WIDTH + start_col,
                        board@.len() == BOARD_WIDTH * BOARD_HEIGHT,
                    decreases BRICK_WIDTH - c,
                {
                    vstd::pervasive::VecAdditionalExecFns::set(&mut board, base_idx + c, 'X');
                    c = c + 1;
                }
                bricks_count = bricks_count + 1;
                b = b + 1;
            }
            row = row + 1;
        }
        let ball_position: usize = rows_with_bricks * BOARD_WIDTH + BOARD_WIDTH / 2;
        vstd::pervasive::VecAdditionalExecFns::set(&mut board, ball_position, '@');
        let paddle_middle_idx: usize = board_len - (BOARD_WIDTH / 2) - 1;
        let mut paddle: Vec<usize> = Vec::new();
        paddle.push(paddle_middle_idx - 2);
        paddle.push(paddle_middle_idx - 1);
        paddle.push(paddle_middle_idx);
        paddle.push(paddle_middle_idx + 1);
        paddle.push(paddle_middle_idx + 2);
        let mut p: usize = 0;
        while p < paddle.len()
            invariant
                0 <= p <= paddle@.len(),
                paddle@.len() == PADDLE_SIZE,
                board@.len() == BOARD_WIDTH * BOARD_HEIGHT,
                ball_position == 598,
                board@[ball_position as int] == '@',
                forall|k: int|
                    0 <= k < paddle@.len() ==> #[trigger] paddle@[k] < board@.len(),
                forall|k: int| 0 <= k < paddle@.len() ==> #[trigger] paddle@[k] > 600,
                forall|k: int|
                    0 <= k < paddle@.len() - 1 ==> #[trigger] paddle@[k] + 1 == paddle@[k + 1],
                forall|k: int| 0 <= k < p ==> board@[#[trigger] paddle@[k] as int] == '#',
            decreases paddle@.len() - p,
        {
            let idx = paddle[p];
            let ghost board_before = board@;
            vstd::pervasive::VecAdditionalExecFns::set(&mut board, idx, '#');
            proof {
                assert forall|k: int|
                    0 <= k < p + 1 implies board@[#[trigger] paddle@[k] as int] == '#' by {
                    if k < p {
                        assert(paddle@[k] + (p - k) == paddle@[p as int]) by {
                            lemma_paddle_monotone(paddle@, k, p as int);
                        }
                        assert(paddle@[k] != paddle@[p as int]);
                        assert(board@[paddle@[k] as int] == board_before[paddle@[k] as int]);
                    }
                }
            }
            p = p + 1;
        }
        Breakout {
            board,
            paddle,
            ball_position,
            ball_down: now % 2 == 0,
            ball_right: now % 2 != 0,
            bricks_count,
            is_finished: false,
            last_update_time: now,
        }
    }

    /// Shifts the paddle one cell, unless it already touches that edge.
    #[verifier::loop_isolation(false)]
    pub fn move_paddle(&mut self, left: bool)
        requires
            old(self).wf(),
        ensures
            final(self).wf(),
            final(self).ball_position == old(self).ball_position,
            final(self).bricks_count == old(self).bricks_count,
            final(self).is_finished == old(self).is_finished,
    {
        if left && self.paddle[0] % BOARD_WIDTH != 0 && self.paddle[0] > 0 {
            let last = self.paddle[PADDLE_SIZE - 1];
            vstd::pervasive::VecAdditionalExecFns::set(&mut self.board, last, ' ');
            let mut k: usize = 0;
            let ghost before = self.paddle@;
            while k < self.paddle.len()
                invariant
                    0 <= k <= self.paddle@.len(),
                    self.paddle@.len() == before.len(),
                    before.len() == PADDLE_SIZE,
                    forall|j: int| 0 <= j < before.len() ==> #[trigger] before[j] < self.board@.len(),
                    forall|j: int|
                        0 <= j < before.len() - 1 ==> #[trigger] before[j] + 1 == before[j + 1],
                    before[0] > 0,
                    forall|j: int| k <= j < before.len() ==> #[trigger] self.paddle@[j] == before[j],
                    forall|j: int|
                        0 <= j < k ==> #[trigger] self.paddle@[j] + 1 == before[j],
                    self.board@.len() == old(self).board@.len(),
                    self.ball_position == old(self).ball_position,
                    self.bricks_count == old(self).bricks_count,
                    self.is_finished == old(self).is_finished,
                decreases self.paddle@.len() - k,
            {
                proof {
                    assert(before[k as int] >= before[0]) by {
                        lemma_paddle_monotone(before, 0, k as int);
                    }
                }
                let v = self.paddle[k];
                vstd::pervasive::VecAdditionalExecFns::set(&mut self.paddle, k, v - 1);
                k = k + 1;
            }
            let first = self.paddle[0];
            vstd::pervasive::VecAdditionalExecFns::set(&mut self.board, first, '#');
        } else if !left && self.paddle[PADDLE_SIZE - 1] < self.board.len() - 1 && (self.paddle[
            PADDLE_SIZE - 1] + 1) % BOARD_WIDTH != 0 {
            let first = self.paddle[0];
            vstd::pervasive::VecAdditionalExecFns::set(&mut self.board, first, ' ');
            let mut k: usize = 0;
            let ghost before = self.paddle@;
            while k < self.paddle.len()
                invariant
                    0 <= k <= self.paddle@.len(),
                    self.paddle@.len() == before.len(),
                    before.len() == PADDLE_SIZE,
                    forall|j: int| 0 <= j < before.len() ==> #[trigger] before[j] < self.board@.len(),
                    forall|j: int|
                        0 <= j < before.len() - 1 ==> #[trigger] before[j] + 1 == before[j + 1],
                    before[PADDLE_SIZE - 1] < self.board@.len() - 1,
                    forall|j: int| k <= j < before.len() ==> #[trigger] self.paddle@[j] == before[j],
                    forall|j: int|
                        0 <= j < k ==> #[trigger] self.paddle@[j] == before[j] + 1,
                    self.board@.len() == old(self).board@.len(),
                    self.ball_position == old(self).ball_position,
                    self.bricks_count == old(self).bricks_count,
                    self.is_finished == old(self).is_finished,
                decreases self.paddle@.len() - k,
            {
                proof {
                    assert(before[k as int] <= before[PADDLE_SIZE - 1]) by {
                        lemma_paddle_monotone(before, k as int, PADDLE_SIZE - 1);
                    }
                }
                let v = self.paddle[k];
                vstd::pervasive::VecAdditionalExecFns::set(&mut self.paddle, k, v + 1);
                k = k + 1;
            }
            let last = self.paddle[PADDLE_SIZE - 1];
            vstd::pervasive::VecAdditionalExecFns::set(&mut self.board, last, '#');
        }
    }
}

/// In a run of neighbouring cells, positions grow with the index.
proof fn lemma_paddle_monotone(paddle: Seq<usize>, a: int, b: int)
    requires
        forall|j: int| 0 <= j < paddle.len() - 1 ==> #[trigger] paddle[j] + 1 == paddle[j + 1],
        0 <= a <= b < paddle.len(),
    ensures
        paddle[a] + (b - a) == paddle[b],
    decreases b - a,
{
    if a < b {
        lemma_paddle_monotone(paddle, a + 1, b);
        assert(paddle[a] + 1 == paddle[a + 1]);
    }
}

impl Renderable for MainMenu {
    fn render_frame(&self) -> Frame {
        let mut contents: Vec<char> = Vec::new();
        let mut i: usize = 0;
        while i < self.games_available.len()
            invariant
                0 <= i <= self.games_available@.len(),
            decreases self.games_available@.len() - i,
        {
            let marker = if i == self.current_chosen_game {
                '>'
            } else {
                ' '
            };
            contents.push(marker);
            let tag = match self.games_available[i] {
                Game::Breakout => 'B',
                Game::Snake => 'S',
                Game::Tetris => 'T',
            };
            contents.push(tag);
            i = i + 1;
        }
        let h = self.games_available.len();
        Frame::create_frame(2, h, contents)
    }
}

impl Renderable for Breakout {
    fn render_frame(&self) -> Frame {
        let contents = clone_board(&self.board);
        Frame::create_frame(BOARD_WIDTH, BOARD_HEIGHT, contents)
    }
}

/// Copies a board cell by cell.
pub fn clone_board(v: &Vec<char>) -> (r: Vec<char>)
    ensures
        r@ == v@,
{
    let mut r: Vec<char> = Vec::new();
    let mut i: usize = 0;
    while i < v.len()
        invariant
            0 <= i <= v@.len(),
            r@ == v@.take(i as int),
        decreases v@.len() - i,
    {
        r.push(v[i]);
        proof {
            assert(v@.take(i + 1) =~= v@.take(i as int).push(v@[i as int]));
        }
        i = i + 1;
    }
    proof {
        assert(v@.take(v@.len() as int) =~= v@);
    }
    r
}

} // verus!
