use vstd::prelude::*;
use crate::food::{FoodGenerator, lemma_next_food_free, next_food_spec, roomy, SCAN_CELLS};
use crate::display::{Cell, body_cell, food_cell, frame_spec};
use crate::point::{Direction, Point, contains_prefix, on_board, step, step_spec};

verus! {

/// How many segments the snake buffer holds.
pub const MAX_SNAKE_LENGTH: usize = 256;

/// The seed the food generator starts from.
pub const INITIAL_SEED: u16 = 0xA5A5;

/// How far left of the starting head the first food lies.
pub const FOOD_OFFSET: u16 = 5;

/// The mathematical picture of a game: the whole segment buffer (live prefix
/// and stale tail), the live length, heading, food, board and generator seed.
pub ghost struct GameView {
    pub snake: Seq<Point>,
    pub length: nat,
    pub direction: Direction,
    pub food: Point,
    pub board_size: (u16, u16),
    pub seed: u16,
}

/// Boards a game can be played on: the first food fits left of the centre,
/// and there is always a free cell for food.
pub open spec fn playable(board: (u16, u16)) -> bool {
    board.0 >= 2 * FOOD_OFFSET && roomy(board)
}

/// The centre cell, where a snake starts.
pub open spec fn center(board: (u16, u16)) -> Point {
    Point((board.0 / 2) as u16, (board.1 / 2) as u16)
}

/// The state of a freshly started game: a one-segment snake in the centre
/// heading right, the food `FOOD_OFFSET` cells to its left.
pub open spec fn initial_view(board: (u16, u16), seed: u16) -> GameView {
    GameView {
        snake: Seq::new(MAX_SNAKE_LENGTH as nat, |i: int| center(board)),
        length: 1,
        direction: Direction::Right,
        food: Point((board.0 / 2 - FOOD_OFFSET) as u16, (board.1 / 2) as u16),
        board_size: board,
        seed,
    }
}

/// The buffer after an ordinary move: each live segment takes its
/// predecessor's place and `head` becomes the first.
pub open spec fn shifted(snake: Seq<Point>, length: nat, head: Point) -> Seq<Point> {
    Seq::new(snake.len(), |i: int| if i == 0 { head } else if i < length { snake[i - 1] } else { snake[i] })
}

impl GameView {
    /// The live segments, head first.
    pub open spec fn body(self) -> Seq<Point> {
        self.snake.subrange(0, self.length as int)
    }

    /// Where the head goes this tick.
    pub open spec fn next_head(self) -> Point {
        step_spec(self.snake[0], self.direction)
    }

    /// Whether a move to `p` ends the round: into the body or off the board.
    pub open spec fn collides(self, p: Point) -> bool {
        self.body().contains(p) || !on_board(p, self.board_size)
    }

    /// A full buffer, a live length within it, every buffered cell and the
    /// food on the board.
    pub open spec fn grounded(self) -> bool {
        &&& playable(self.board_size)
        &&& self.snake.len() == MAX_SNAKE_LENGTH
        &&& 1 <= self.length <= MAX_SNAKE_LENGTH
        &&& forall|i: int| 0 <= i < self.snake.len() ==> on_board(#[trigger] self.snake[i], self.board_size)
        &&& on_board(self.food, self.board_size)
    }

    /// The game's invariant: grounded, and the food off the body.
    pub open spec fn wf(self) -> bool {
        &&& self.grounded()
        &&& !self.body().contains(self.food)
    }

    /// One tick: eat and grow (the body stays put and new food is placed),
    /// or die and start over, or move.
    pub open spec fn update(self) -> GameView {
        let h = self.next_head();
        if h == self.food {
            let length = if self.length < MAX_SNAKE_LENGTH { self.length + 1 } else { self.length };
            let (seed, food) = next_food_spec(self.seed, self.board_size, self.snake.subrange(0, length as int));
            GameView { length, food, seed, ..self }
        } else if self.collides(h) {
            initial_view(self.board_size, self.seed)
        } else {
            GameView { snake: shifted(self.snake, self.length, h), ..self }
        }
    }
}

/// A started game keeps its invariant.
pub proof fn lemma_initial_wf(board: (u16, u16), seed: u16)
    requires
        playable(board),
    ensures
        initial_view(board, seed).wf(),
{
    let v = initial_view(board, seed);
    assert(v.body() =~= seq![center(board)]);
}

/// Every tick keeps the invariant: the food is never on a live segment, and
/// every segment stays on the board.
pub proof fn lemma_update_keeps_wf(v: GameView)
    requires
        v.wf(),
    ensures
        v.update().wf(),
        !v.update().body().contains(v.update().food),
        forall|i: int| 0 <= i < v.update().length ==> on_board(#[trigger] v.update().snake[i], v.board_size),
{
    let h = v.next_head();
    let u = v.update();
    if h == v.food {
        lemma_next_food_free(v.seed, v.board_size, v.snake.subrange(0, u.length as int));
        assert(u.body() =~= v.snake.subrange(0, u.length as int));
    } else if v.collides(h) {
        lemma_initial_wf(v.board_size, v.seed);
    } else {
        assert forall|i: int| 0 <= i < u.snake.len() implies on_board(#[trigger] u.snake[i], u.board_size) by {
            if i > 0 && i < v.length {
                assert(on_board(v.snake[i - 1], v.board_size));
            }
        }
        if u.body().contains(u.food) {
            let k = choose|k: int| 0 <= k < u.length && u.body()[k] == u.food;
            assert(k > 0);
            assert(v.body()[k - 1] == v.food);
        }
    }
}

/// A tick leaves the length as it was, adds one, or starts over at one.
pub proof fn lemma_update_length(v: GameView)
    requires
        v.wf(),
    ensures
        v.update().length == v.length || v.update().length == v.length + 1 || v.update().length == 1,
{
}

/// A tick that runs into the body or off the board leaves exactly the state
/// of a fresh game on the same board; only the generator's seed carries over.
pub proof fn lemma_collision_resets(v: GameView)
    requires
        v.wf(),
        v.next_head() != v.food,
        v.collides(v.next_head()),
    ensures
        v.update() == initial_view(v.board_size, v.seed),
{
}

/// Whether `body`, `food` and `board` make a game: a playable board, a body
/// of one to `MAX_SNAKE_LENGTH` segments on it, and food on it off the body.
pub open spec fn valid_parts(body: Seq<Point>, food: Point, board: (u16, u16)) -> bool {
    &&& playable(board)
    &&& 1 <= body.len() <= MAX_SNAKE_LENGTH
    &&& forall|i: int| 0 <= i < body.len() ==> on_board(#[trigger] body[i], board)
    &&& on_board(food, board)
    &&& !body.contains(food)
}

/// The buffer holding `body`, its unused tail filled with the head.
pub open spec fn padded(body: Seq<Point>) -> Seq<Point> {
    Seq::new(MAX_SNAKE_LENGTH as nat, |i: int| if i < body.len() { body[i] } else { body[0] })
}

/// The snake game: a fixed buffer of segments whose first `length` are the
/// live body, head first.
pub struct SnakeGame {
    snake: [Point; MAX_SNAKE_LENGTH],
    length: usize,
    direction: Direction,
    food: Point,
    board_size: (u16, u16),
    generator: FoodGenerator,
}

impl View for SnakeGame {
    type V = GameView;

    closed spec fn view(&self) -> GameView {
        GameView {
            snake: self.snake@,
            length: self.length as nat,
            direction: self.direction,
            food: self.food,
            board_size: self.board_size,
            seed: self.generator.seed,
        }
    }
}

impl SnakeGame {
    pub open spec fn wf(&self) -> bool {
        self@.wf()
    }

    /// A new game on a board of `board_size.0` columns and `board_size.1`
    /// rows: the snake in the centre heading right, the food five cells to
    /// its left. The board must leave room for that food, and hold more cells
    /// than the snake can cover so that food can always be placed.
    pub fn new(board_size: (u16, u16)) -> (r: SnakeGame)
        requires
            playable(board_size),
        ensures
            r@ == initial_view(board_size, INITIAL_SEED),
            r.wf(),
    {
        Self::start(board_size, FoodGenerator::new(INITIAL_SEED))
    }

    fn start(board_size: (u16, u16), generator: FoodGenerator) -> (r: SnakeGame)
        requires
            playable(board_size),
        ensures
            r@ == initial_view(board_size, generator.seed),
            r.wf(),
    {
        let mid_x = board_size.0 / 2;
        let mid_y = board_size.1 / 2;
        let snake = [Point(mid_x, mid_y); MAX_SNAKE_LENGTH];
        let r = SnakeGame {
            snake,
            length: 1,
            direction: Direction::Right,
            food: Point(mid_x - FOOD_OFFSET, mid_y),
            board_size,
            generator,
        };
        assert(r@.snake =~= initial_view(board_size, generator.seed).snake);
        proof {
            lemma_initial_wf(board_size, generator.seed);
        }
        r
    }

    /// Starts the game over on the same board; the generator keeps its seed.
    pub fn reset(&mut self)
        requires
            old(self).wf(),
        ensures
            final(self)@ == initial_view(old(self)@.board_size, old(self)@.seed),
            final(self).wf(),
    {
        let generator = FoodGenerator::new(self.generator.seed);
        *self = Self::start(self.board_size, generator);
    }

    /// Places new food off the first `length` segments.
    fn place_food(&mut self)
        requires
            old(self)@.grounded(),
        ensures
            (final(self)@.seed, final(self)@.food) == next_food_spec(
                old(self)@.seed,
                old(self)@.board_size,
                old(self)@.body(),
            ),
            final(self)@.snake == old(self)@.snake,
            final(self)@.length == old(self)@.length,
            final(self)@.direction == old(self)@.direction,
            final(self)@.board_size == old(self)@.board_size,
            final(self).wf(),
    {
        let food = self.generator.next_food(self.board_size, self.snake.as_slice(), self.length);
        self.food = food;
    }

    /// Whether moving the head to `new_head` ends the round.
    fn check_collision(&self, new_head: &Point) -> (r: bool)
        requires
            self.wf(),
        ensures
            r == self@.collides(*new_head),
    {
        if contains_prefix(self.snake.as_slice(), self.length, *new_head) {
            return true;
        }
        if new_head.0 >= self.board_size.0 || new_head.1 >= self.board_size.1 {
            return true;
        }
        false
    }

    /// Advances the game by one tick.
    ///
    /// The head's next cell is one step along the heading, wrapping each
    /// coordinate modulo 2^16. On the food the snake grows by one (up to
    /// `MAX_SNAKE_LENGTH`) without moving and new food is placed; into the
    /// body or off the board the game starts over; otherwise every live
    /// segment moves up one place and the head takes the new cell.
    pub fn update(&mut self)
        requires
            old(self).wf(),
        ensures
            final(self)@ == old(self)@.update(),
            final(self).wf(),
    {
        let new_head = step(self.snake[0], self.direction);
        if new_head == self.food {
            if self.length < MAX_SNAKE_LENGTH {
                self.length += 1;
            }
            self.place_food();
            proof {
                assert(self@.body() =~= old(self)@.snake.subrange(0, self.length as int));
            }
        } else if !self.check_collision(&new_head) {
            let ghost before = self.snake@;
            let mut idx: usize = self.length - 1;
            while idx > 0
                invariant
                    idx < self.length <= MAX_SNAKE_LENGTH,
                    self.snake@.len() == MAX_SNAKE_LENGTH,
                    forall|j: int| 0 <= j <= idx ==> #[trigger] self.snake@[j] == before[j],
                    forall|j: int| idx < j < self.length ==> #[trigger] self.snake@[j] == before[j - 1],
                    forall|j: int| self.length <= j < MAX_SNAKE_LENGTH ==> #[trigger] self.snake@[j] == before[j],
                    self.length == old(self).length,
                    self.food == old(self).food,
                    self.direction == old(self).direction,
                    self.board_size == old(self).board_size,
                    self.generator.seed == old(self).generator.seed,
                    before == old(self).snake@,
                decreases idx,
            {
                self.snake[idx] = self.snake[idx - 1];
                idx -= 1;
            }
            self.snake[0] = new_head;
            proof {
                assert(self.snake@ =~= shifted(before, self.length as nat, new_head));
                lemma_update_keeps_wf(old(self)@);
            }
        } else {
            self.reset();
        }
    }

    /// A game in a given position: the live body head first, the heading, the
    /// food, the board and the generator's seed. `None` unless the parts make
    /// a game (see `valid_parts`).
    pub fn from_parts(body: &[Point], direction: Direction, food: Point, board_size: (u16, u16), seed: u16) -> (r: Option<SnakeGame>)
        ensures
            r is Some <==> valid_parts(body@, food, board_size),
            r matches Some(g) ==> g.wf() && g@ == (GameView {
                snake: padded(body@),
                length: body@.len(),
                direction,
                food,
                board_size,
                seed,
            }),
    {
        let w = board_size.0 as u64;
        let h = board_size.1 as u64;
        assert(w * h <= 0xFFFF * 0xFFFF) by (nonlinear_arith)
            requires w <= 0xFFFF, h <= 0xFFFF;
        if board_size.0 < 2 * FOOD_OFFSET || board_size.1 == 0 || w * h < SCAN_CELLS as u64 {
            return None;
        }
        if body.len() == 0 || body.len() > MAX_SNAKE_LENGTH {
            return None;
        }
        if food.0 >= board_size.0 || food.1 >= board_size.1 {
            return None;
        }
        let mut i: usize = 0;
        while i < body.len()
            invariant
                i <= body@.len(),
                forall|j: int| 0 <= j < i ==> on_board(#[trigger] body@[j], board_size),
            decreases body@.len() - i,
        {
            if body[i].0 >= board_size.0 || body[i].1 >= board_size.1 {
                return None;
            }
            i += 1;
        }
        if contains_prefix(body, body.len(), food) {
            assert(body@.subrange(0, body@.len() as int) =~= body@);
            return None;
        }
        assert(body@.subrange(0, body@.len() as int) =~= body@);
        let mut snake = [body[0]; MAX_SNAKE_LENGTH];
        let mut k: usize = 0;
        while k < body.len()
            invariant
                k <= body@.len() <= MAX_SNAKE_LENGTH,
                snake@.len() == MAX_SNAKE_LENGTH,
                forall|j: int| 0 <= j < MAX_SNAKE_LENGTH ==> #[trigger] snake@[j] == (if j < k { body@[j] } else { body@[0] }),
            decreases body@.len() - k,
        {
            snake[k] = body[k];
            k += 1;
        }
        let g = SnakeGame { snake, length: body.len(), direction, food, board_size, generator: FoodGenerator::new(seed) };
        assert(g@.snake =~= padded(body@));
        assert(g@.body() =~= body@);
        Some(g)
    }

    /// The cells to draw for this state, after clearing the display: each
    /// live segment head first, then the food.
    pub fn render(&self) -> (r: Vec<Cell>)
        requires
            self.wf(),
        ensures
            r@ == frame_spec(self@.body(), self@.food),
    {
        let mut cells: Vec<Cell> = Vec::new();
        let mut i: usize = 0;
        while i < self.length
            invariant
                self.wf(),
                i <= self.length,
                cells@ == frame_spec(self@.body(), self@.food).subrange(0, i as int),
            decreases self.length - i,
        {
            cells.push(body_cell(self.snake[i]));
            i += 1;
            assert(cells@ =~= frame_spec(self@.body(), self@.food).subrange(0, i as int));
        }
        cells.push(food_cell(self.food));
        assert(cells@ =~= frame_spec(self@.body(), self@.food));
        cells
    }

    /// One tick of the game: the update, then the frame of the new state.
    pub fn tick(&mut self) -> (r: Vec<Cell>)
        requires
            old(self).wf(),
        ensures
            final(self)@ == old(self)@.update(),
            final(self).wf(),
            r@ == frame_spec(final(self)@.body(), final(self)@.food),
    {
        self.update();
        self.render()
    }

    /// How many segments are live.
    pub fn length(&self) -> (r: usize)
        ensures
            r == self@.length,
    {
        self.length
    }

    /// The live segments, head first.
    pub fn snake(&self) -> (r: Vec<Point>)
        requires
            self.wf(),
        ensures
            r@ == self@.body(),
    {
        let mut out: Vec<Point> = Vec::new();
        let mut i: usize = 0;
        while i < self.length
            invariant
                self.wf(),
                i <= self.length,
                out@ == self@.body().subrange(0, i as int),
            decreases self.length - i,
        {
            out.push(self.snake[i]);
            i += 1;
            assert(out@ =~= self@.body().subrange(0, i as int));
        }
        assert(out@ =~= self@.body());
        out
    }

    /// The food's cell.
    pub fn food(&self) -> (r: Point)
        ensures
            r == self@.food,
    {
        self.food
    }

    /// The current heading.
    pub fn direction(&self) -> (r: Direction)
        ensures
            r == self@.direction,
    {
        self.direction
    }

    /// Turns the snake; nothing else changes.
    pub fn set_direction(&mut self, direction: Direction)
        ensures
            final(self)@ == (GameView { direction, ..old(self)@ }),
    {
        self.direction = direction;
    }

    /// The board's columns and rows.
    pub fn board_size(&self) -> (r: (u16, u16))
        ensures
            r == self@.board_size,
    {
        self.board_size
    }

    /// The food generator's seed.
    pub fn seed(&self) -> (r: u16)
        ensures
            r == self@.seed,
    {
        self.generator.seed
    }
}

} // verus!
