use crate::food::Food;
use crate::grid::{
    generate_all_position, in_board, in_universe, pos_key, GridConfig, Position,
};
use crate::snake::{
    is_direction_conflict, lemma_move_preserves_sync, lemma_seq_keys_contains, moved_body,
    moved_key_set, opposite, step_from, Direction, Snake,
};
use vstd::prelude::*;

verus! {

/// Whether a head at `p` has hit a wall: its top-left corner lies strictly
/// outside `[0, width) x [0, height)`.
pub open spec fn hits_wall(c: GridConfig, p: Position) -> bool {
    !in_board(c, p)
}

/// This tick's collision verdict on a just-moved body: the head is off the
/// board, or it coincides with one of the remaining body cells — the head
/// itself excluded from the comparison.
pub open spec fn collides(c: GridConfig, body: Seq<Position>) -> bool {
    hits_wall(c, body[0]) || body.drop_first().contains(body[0])
}

/// The game state machine: snake, food, the immutable grid universe, the
/// one-way terminal flag, the score, and the validated direction change
/// waiting for the next tick.
pub struct App {
    pub config: GridConfig,
    pub snake: Snake,
    pub food: Food,
    pub game_over: bool,
    pub all_position: Vec<Position>,
    pub score: u32,
    pub pending_direction: Option<Direction>,
}

impl App {
    /// The universe vector enumerates the grid universe exactly: only
    /// universe cells, all of them, none twice.
    pub open spec fn universe_ok(self) -> bool {
        &&& (forall|k: int|
            0 <= k < self.all_position@.len() ==> in_universe(
                self.config,
                #[trigger] self.all_position@[k],
            ))
        &&& (forall|p: Position|
            #[trigger] in_universe(self.config, p) ==> self.all_position@.contains(p))
        &&& (forall|k1: int, k2: int|
            0 <= k1 < k2 < self.all_position@.len() ==> self.all_position@[k1]
                != self.all_position@[k2])
    }

    /// Well-formed game state. While the game runs, the snake is in sync
    /// with its membership set and its head is on the board; a terminal
    /// state keeps whatever body the ending tick produced.
    pub open spec fn wf(self) -> bool {
        &&& self.config.wf()
        &&& 1 <= self.snake.body@.len()
        &&& self.universe_ok()
        &&& (!self.game_over ==> self.snake.wf() && in_board(self.config, self.snake.body@[0]))
    }

    /// Whether this tick's move starts on the food cell, which makes it a
    /// growing move.
    pub open spec fn eats_now(self) -> bool {
        self.snake.body@[0] == self.food.position
    }

    /// The heading the next move will use: the pending validated change if
    /// one arrived since the last tick, else the current heading.
    pub open spec fn effective_direction(self) -> Direction {
        match self.pending_direction {
            Some(d) => d,
            None => self.snake.direction,
        }
    }

    /// Whether a direction intent arriving now will be honored at the next
    /// tick: the game is running, no change is pending already, and the
    /// intent does not reverse the current heading.
    pub open spec fn accepts_intent(self, d: Direction) -> bool {
        &&& !self.game_over
        &&& self.pending_direction is None
        &&& !opposite(self.snake.direction, d)
    }

    /// A game in its initial state on explicitly chosen cells: a
    /// one-segment snake with the given heading, food on the given cell,
    /// score zero, running.
    pub fn with_initial(
        config: GridConfig,
        snake_position: Position,
        direction: Direction,
        food_position: Position,
    ) -> (r: App)
        requires
            config.wf(),
            in_universe(config, snake_position),
            in_universe(config, food_position),
        ensures
            r.wf(),
            r.config == config,
            r.snake.body@ == seq![snake_position],
            r.snake.direction == direction,
            r.food.position == food_position,
            !r.game_over,
            r.score == 0,
            r.pending_direction is None,
    {
        let snake = Snake::with_initial(snake_position, direction);
        let all_position = generate_all_position(&config);
        App {
            config,
            snake,
            food: Food { position: food_position },
            game_over: false,
            all_position,
            score: 0,
            pending_direction: None,
        }
    }

    /// A fresh game: snake and food each spawn
    /// on an independent uniformly random universe cell. Their coinciding
    /// at spawn is allowed — the first tick then counts as an ordinary
    /// meal.
    pub fn new(config: &GridConfig) -> (r: App)
        requires
            config.wf(),
        ensures
            r.wf(),
            r.config == *config,
            !r.game_over,
            r.score == 0,
            r.pending_direction is None,
            r.snake.body@.len() == 1,
            in_universe(*config, r.snake.body@[0]),
            in_universe(*config, r.food.position),
    {
        let snake = Snake::new(config);
        let food = Food::new(config);
        let all_position = generate_all_position(config);
        App {
            config: *config,
            snake,
            food,
            game_over: false,
            all_position,
            score: 0,
            pending_direction: None,
        }
    }

    /// Evaluates this tick's collision rules on the just-moved snake: true
    /// exactly on a wall hit or on the head coinciding with a remaining
    /// body cell other than itself.
    pub fn is_collision(&self) -> (r: bool)
        requires
            1 <= self.snake.body@.len(),
        ensures
            r == collides(self.config, self.snake.body@),
    {
        let head = *self.snake.head();
        if head.x < 0 || head.x >= self.config.width || head.y < 0
            || head.y >= self.config.height {
            return true;
        }
        let mut i: usize = 1;
        while i < self.snake.body.len()
            invariant
                1 <= i <= self.snake.body@.len(),
                head == self.snake.body@[0],
                forall|j: int| 1 <= j < i ==> self.snake.body@[j] != head,
            decreases self.snake.body@.len() - i,
        {
            let seg = self.snake.body[i];
            if seg == head {
                proof {
                    assert(self.snake.body@.drop_first()[i - 1] == head);
                }
                return true;
            }
            i += 1;
        }
        proof {
            assert forall|j: int|
                0 <= j < self.snake.body@.drop_first().len()
                    implies self.snake.body@.drop_first()[j] != head by {
                assert(self.snake.body@.drop_first()[j] == self.snake.body@[j + 1]);
            }
        }
        false
    }

    /// One tick of the state machine while running: consume the pending
    /// direction change, decide growth by whether the head starts on the
    /// food, advance the snake, then settle the tick — a collision makes
    /// the state terminal untouched otherwise; a meal increments the score
    /// and relocates the food to a random free cell, or ends the game as a
    /// win when the occupied cells cover the whole grid universe so that no
    /// free cell is left. Once terminal, ticks change nothing.
    pub fn update(&mut self)
        requires
            old(self).wf(),
            old(self).score < u32::MAX,
        ensures
            final(self).wf(),
            final(self).config == old(self).config,
            final(self).all_position == old(self).all_position,
            final(self).score >= old(self).score,
            old(self).game_over ==> final(self).game_over,
            old(self).game_over ==> *final(self) == *old(self),
            !old(self).game_over ==> ({
                let c = old(self).config;
                let grow = old(self).eats_now();
                let h = step_from(
                    old(self).snake.body@[0],
                    old(self).effective_direction(),
                    c.cell_size,
                );
                let nb = moved_body(old(self).snake.body@, h, grow);
                let nks = moved_key_set(
                    old(self).snake.body_set@,
                    old(self).snake.body@,
                    h,
                    grow,
                );
                &&& final(self).snake.direction == old(self).effective_direction()
                &&& final(self).pending_direction is None
                &&& final(self).snake.body@ == nb
                &&& final(self).snake.body_set@ == nks
                &&& (collides(c, nb) ==> final(self).game_over && final(self).score == old(
                    self,
                ).score && final(self).food == old(self).food)
                &&& (!collides(c, nb) && !grow ==> !final(self).game_over && final(self).score
                    == old(self).score && final(self).food == old(self).food)
                &&& (!collides(c, nb) && grow ==> {
                    &&& final(self).score == old(self).score + 1
                    &&& (final(self).game_over <==> (forall|p: Position|
                        #[trigger] in_universe(c, p) ==> nks.contains(pos_key(p))))
                    &&& (final(self).game_over ==> final(self).food == old(self).food)
                    &&& (!final(self).game_over ==> in_universe(c, final(self).food.position)
                        && !nks.contains(pos_key(final(self).food.position)))
                })
            }),
    {
        if self.game_over {
            return;
        }
        if let Some(d) = self.pending_direction {
            self.snake.direction = d;
            self.pending_direction = None;
        }
        let grow = {
            let h = self.snake.head();
            h.x == self.food.position.x && h.y == self.food.position.y
        };
        let ghost pre_snake = self.snake;
        self.snake.move_forward(&self.config, grow);
        let ghost h = pre_snake.next_head(self.config);
        if self.is_collision() {
            self.game_over = true;
            return;
        }
        proof {
            assert(self.snake.body@[0] == h);
            assert(!self.snake.body@.drop_first().contains(h));
            lemma_move_preserves_sync(pre_snake, self.snake, h, grow);
        }
        if grow {
            self.score += 1;
            match self.food.refresh_position(&self.all_position, &self.snake.body_set) {
                Some(position) => {
                    proof {
                        let k = choose|k: int|
                            0 <= k < self.all_position@.len() && self.all_position@[k]
                                == position;
                        assert(in_universe(self.config, self.all_position@[k]));
                    }
                    self.food.position = position;
                },
                None => {
                    proof {
                        assert forall|p: Position| #[trigger] in_universe(self.config, p)
                            implies self.snake.body_set@.contains(pos_key(p)) by {
                            assert(self.all_position@.contains(p));
                            let k = choose|k: int|
                                0 <= k < self.all_position@.len() && self.all_position@[k]
                                    == p;
                            assert(self.snake.body_set@.contains(
                                pos_key(self.all_position@[k]),
                            ));
                        }
                    }
                    self.game_over = true;
                },
            };
        }
    }

    /// Registers a direction-change intent from the input adapter, filtered
    /// through the turn rule: a 180-degree reversal is silently dropped, at
    /// most one change is honored per tick (later intents on the same tick
    /// are dropped), and nothing happens once the game is over.
    pub fn handle_direction_intent(&mut self, new_direction: Direction)
        ensures
            final(self).pending_direction == (if old(self).accepts_intent(new_direction) {
                Some(new_direction)
            } else {
                old(self).pending_direction
            }),
            final(self).snake == old(self).snake,
            final(self).food == old(self).food,
            final(self).config == old(self).config,
            final(self).game_over == old(self).game_over,
            final(self).score == old(self).score,
            final(self).all_position == old(self).all_position,
    {
        if self.game_over {
            return;
        }
        if self.pending_direction.is_some() {
            return;
        }
        if !is_direction_conflict(&self.snake.direction, new_direction) {
            self.pending_direction = Some(new_direction);
        }
    }
}

/// Everything the render sink needs to draw one frame, detached from the
/// live state: the body cells head-first (the first entry is the head, for
/// its distinct color), the food cell, the board geometry, and the score
/// and terminal flag for the end-of-game report.
pub struct Snapshot {
    pub body: Vec<Position>,
    pub food: Position,
    pub width: i16,
    pub height: i16,
    pub cell_size: i16,
    pub score: u32,
    pub game_over: bool,
}

impl App {
    /// An immutable copy of the drawable state, so a render sink working
    /// at its own rate never reads a half-updated tick.
    pub fn snapshot(&self) -> (r: Snapshot)
        ensures
            r.body@ == self.snake.body@,
            r.food == self.food.position,
            r.width == self.config.width,
            r.height == self.config.height,
            r.cell_size == self.config.cell_size,
            r.score == self.score,
            r.game_over == self.game_over,
    {
        let mut body: Vec<Position> = Vec::new();
        let mut i: usize = 0;
        while i < self.snake.body.len()
            invariant
                i <= self.snake.body@.len(),
                body@ == self.snake.body@.subrange(0, i as int),
            decreases self.snake.body@.len() - i,
        {
            body.push(self.snake.body[i]);
            proof {
                assert(body@ =~= self.snake.body@.subrange(0, i + 1));
            }
            i += 1;
        }
        proof {
            assert(body@ =~= self.snake.body@);
        }
        Snapshot {
            body,
            food: self.food.position,
            width: self.config.width,
            height: self.config.height,
            cell_size: self.config.cell_size,
            score: self.score,
            game_over: self.game_over,
        }
    }
}

/// Law: at a tick boundary — the game running, nothing pending — a
/// direction intent is rejected exactly when it is the 180-degree reversal
/// of the current heading; the three other headings, the current one
/// included, are accepted.
pub proof fn lemma_direction_change_rejected_iff_reversal(app: App, d: Direction)
    requires
        !app.game_over,
        app.pending_direction is None,
    ensures
        app.accepts_intent(d) <==> !opposite(app.snake.direction, d),
        app.accepts_intent(app.snake.direction),
{
}

/// Law: for a snake in sync with its membership set, covering every
/// universe key is covering every universe cell — the win condition that
/// `update` detects through the set is exactly "the occupied cells include
/// the whole grid universe".
pub proof fn lemma_win_covers_universe(s: Snake, c: GridConfig)
    requires
        s.wf(),
    ensures
        (forall|p: Position| #[trigger] in_universe(c, p) ==> s.body_set@.contains(pos_key(p)))
            <==> (forall|p: Position| #[trigger] in_universe(c, p) ==> s.body@.contains(p)),
{
    assert forall|p: Position| #[trigger] in_universe(c, p) implies (s.body_set@.contains(
        pos_key(p),
    ) <==> s.body@.contains(p)) by {
        lemma_seq_keys_contains(s.body@, p);
    }
}

} // verus!
