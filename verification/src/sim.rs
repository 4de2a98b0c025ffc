//! One round of the game: grid, snake, apple, heading, cadence and score.

use vstd::prelude::*;
use std::collections::VecDeque;
use crate::cell::{Cell, Direction, delta, in_bounds};
use crate::model::{
    SimModel, START_INTERVAL_MS, advance_rel, advance_run, dist_ahead, grid_covered,
    lemma_dims, lemma_run_snoc, lemma_step_dist, lemma_step_preserves_wf, model_wf, next_head,
    step_rel,
    with_last,
};
use crate::laws::lemma_step_interval;
use crate::random::RandomSource;

verus! {

/// How many random draws apple placement makes before it falls back to a
/// deterministic scan of the grid.
pub const APPLE_DRAW_TRIES: u32 = 100;

/// Whether a cell occurs in the snake body.
fn deque_contains(q: &VecDeque<Cell>, c: Cell) -> (r: bool)
    ensures
        r == q@.contains(c),
{
    let n = q.len();
    let mut i: usize = 0;
    while i < n
        invariant
            n == q@.len(),
            0 <= i <= n,
            forall|j: int| 0 <= j < i ==> q@[j] != c,
        decreases n - i,
    {
        if q[i] == c {
            assert(q@[i as int] == c);
            return true;
        }
        i = i + 1;
    }
    false
}

/// One round: a snake on a fixed grid, an apple, a heading, the move
/// cadence and the score, advanced step by step as time is supplied.
pub struct RunningGame {
    source: RandomSource,
    width: i32,
    height: i32,
    snake: VecDeque<Cell>,
    apple: Cell,
    direction: Direction,
    interval_ms: u64,
    last_step_ms: Option<u64>,
    over: bool,
    fault: bool,
    score: usize,
}

impl View for RunningGame {
    type V = SimModel;

    closed spec fn view(&self) -> SimModel {
        SimModel {
            width: self.width as int,
            height: self.height as int,
            body: self.snake@,
            apple: self.apple,
            dir: self.direction,
            interval: self.interval_ms as int,
            last: match self.last_step_ms {
                Some(t) => Some(t as int),
                None => None,
            },
            over: self.over,
            fault: self.fault,
            score: self.score as int,
        }
    }
}

impl RunningGame {
    /// The round is well formed; every public operation keeps this.
    pub open spec fn wf(self) -> bool {
        model_wf(self@)
    }

    /// A fresh round: the snake is one cell at the grid's center, the
    /// heading is down, the interval starts at 500 ms, the clock has not
    /// started, and the apple is placed at random off the snake. On a
    /// one-cell grid no apple fits: the round then starts already ended,
    /// with the fault flag raised.
    pub fn new(width: i32, height: i32, source: RandomSource) -> (g: RunningGame)
        requires
            1 <= width,
            1 <= height,
            width * height <= i32::MAX,
        ensures
            g.wf(),
            g@.width == width,
            g@.height == height,
            g@.body == seq![(Cell { x: (width / 2) as i32, y: (height / 2) as i32 })],
            g@.dir == Direction::Down,
            g@.interval == START_INTERVAL_MS,
            g@.last is None,
            g@.score == 0,
            g@.fault == g@.over,
            g@.over <==> width * height == 1,
    {
        let cx = width / 2;
        let cy = height / 2;
        let center = Cell { x: cx, y: cy };
        let mut snake: VecDeque<Cell> = VecDeque::new();
        snake.push_front(center);
        let mut src = source;
        let ax = src.below(width);
        let ay = src.below(height);
        let mut g = RunningGame {
            source: src,
            width,
            height,
            snake,
            apple: Cell { x: ax, y: ay },
            direction: Direction::Down,
            interval_ms: START_INTERVAL_MS,
            last_step_ms: None,
            over: false,
            fault: false,
            score: 0,
        };
        proof {
            assert(g@.body == seq![center]);
            assert(g@.body[0] == center);
        }
        if deque_contains(&g.snake, g.apple) {
            g.place_apple();
        }
        proof {
            if width * height == 1 {
                assert(width == 1 && height == 1) by (nonlinear_arith)
                    requires 1 <= width && 1 <= height && width * height == 1;
                assert(g@.body.contains(center));
            } else {
                assert(width >= 2 || height >= 2) by (nonlinear_arith)
                    requires 1 <= width && 1 <= height && width * height != 1;
                let wc = if width >= 2 {
                    Cell { x: if cx == 0 { 1 } else { 0 }, y: cy }
                } else {
                    Cell { x: cx, y: if cy == 0 { 1 } else { 0 } }
                };
                assert(!g@.body.contains(wc));
                assert(in_bounds(wc, width as int, height as int));
                assert(!grid_covered(width as int, height as int, g@.body));
            }
        }
        g
    }

    /// Overwrite the heading. Reversal is legal here; the next step's
    /// collision check decides what it costs.
    pub fn set_direction(&mut self, d: Direction)
        requires
            old(self).wf(),
        ensures
            final(self).wf(),
            final(self)@ == (SimModel { dir: d, ..old(self)@ }),
    {
        self.direction = d;
    }

    /// Put the apple on a chosen free cell; rounds become replayable down
    /// to the apple with this.
    pub fn set_apple(&mut self, c: Cell)
        requires
            old(self).wf(),
            !old(self)@.over,
            in_bounds(c, old(self)@.width, old(self)@.height),
            !old(self)@.body.contains(c),
        ensures
            final(self).wf(),
            final(self)@ == (SimModel { apple: c, ..old(self)@ }),
    {
        self.apple = c;
    }

    /// Put the apple on some cell the snake does not occupy: first by a
    /// bounded number of random draws, then by scanning the grid. When the
    /// snake covers the whole grid no cell is free; the round then ends
    /// with the fault flag raised instead of looping forever.
    fn place_apple(&mut self)
        requires
            1 <= old(self)@.width,
            1 <= old(self)@.height,
            old(self)@.width <= i32::MAX,
            old(self)@.height <= i32::MAX,
        ensures
            final(self)@.width == old(self)@.width,
            final(self)@.height == old(self)@.height,
            final(self)@.body == old(self)@.body,
            final(self)@.dir == old(self)@.dir,
            final(self)@.interval == old(self)@.interval,
            final(self)@.last == old(self)@.last,
            final(self)@.score == old(self)@.score,
            if grid_covered(old(self)@.width, old(self)@.height, old(self)@.body) {
                &&& final(self)@.over == true
                &&& final(self)@.fault == true
                &&& final(self)@.apple == old(self)@.apple
            } else {
                &&& in_bounds(final(self)@.apple, old(self)@.width, old(self)@.height)
                &&& !final(self)@.body.contains(final(self)@.apple)
                &&& final(self)@.over == old(self)@.over
                &&& final(self)@.fault == old(self)@.fault
            },
    {
        let mut tries: u32 = 0;
        while tries < APPLE_DRAW_TRIES
            invariant
                self@ == old(self)@,
                1 <= self@.width,
                1 <= self@.height,
            decreases APPLE_DRAW_TRIES - tries,
        {
            let x = self.source.below(self.width);
            let y = self.source.below(self.height);
            let c = Cell { x, y };
            if !deque_contains(&self.snake, c) {
                self.apple = c;
                assert(!grid_covered(self@.width, self@.height, self@.body));
                return;
            }
            tries = tries + 1;
        }
        let mut y: i32 = 0;
        while y < self.height
            invariant
                self@ == old(self)@,
                1 <= self@.width,
                1 <= self@.height,
                0 <= y <= self@.height,
                forall|xx: i32, yy: i32|
                    0 <= xx < self@.width && 0 <= yy < y ==>
                        #[trigger] self@.body.contains(Cell { x: xx, y: yy }),
            decreases self@.height - y,
        {
            let mut x: i32 = 0;
            while x < self.width
                invariant
                    self@ == old(self)@,
                    1 <= self@.width,
                    1 <= self@.height,
                    0 <= y < self@.height,
                    0 <= x <= self@.width,
                    forall|xx: i32, yy: i32|
                        0 <= xx < self@.width && 0 <= yy < y ==>
                            #[trigger] self@.body.contains(Cell { x: xx, y: yy }),
                    forall|xx: i32| 0 <= xx < x ==>
                        #[trigger] self@.body.contains(Cell { x: xx, y }),
                decreases self@.width - x,
            {
                let c = Cell { x, y };
                if !deque_contains(&self.snake, c) {
                    self.apple = c;
                    assert(!grid_covered(self@.width, self@.height, self@.body));
                    return;
                }
                x = x + 1;
            }
            y = y + 1;
        }
        assert(grid_covered(self@.width, self@.height, self@.body));
        self.fault = true;
        self.over = true;
    }

    /// Advance the round by exactly one grid cell: move the head, decide
    /// termination against the body as it stood before the step (tail
    /// included), grow on eating or drop the tail otherwise, and replace
    /// an eaten apple.
    pub fn step(&mut self)
        requires
            old(self).wf(),
            !old(self)@.over,
        ensures
            final(self).wf(),
            step_rel(old(self)@, final(self)@),
    {
        proof {
            lemma_dims(old(self)@);
            assert(in_bounds(old(self)@.body[0], old(self)@.width, old(self)@.height));
        }
        let head = self.snake[0];
        let (dx, dy) = delta(self.direction);
        let nh = Cell { x: head.x + dx, y: head.y + dy };
        proof {
            assert(nh == next_head(old(self)@));
        }
        let hit_wall = nh.x < 0 || nh.x >= self.width || nh.y < 0 || nh.y >= self.height;
        let hit_body = deque_contains(&self.snake, nh);
        self.over = hit_wall || hit_body;
        let ate = nh == self.apple;
        if ate {
            self.interval_ms = self.interval_ms * 9 / 10;
            let _len = self.snake.len();
            proof {
                assert(self.score + 1 <= usize::MAX);
            }
            self.score = self.score + 1;
        } else {
            let _tail = self.snake.pop_back();
        }
        self.snake.push_front(nh);
        if ate {
            proof {
                lemma_dims(old(self)@);
            }
            self.place_apple();
        }
        proof {
            assert(step_rel(old(self)@, self@));
            lemma_step_preserves_wf(old(self)@, self@);
        }
    }

    /// Convert elapsed wall-clock time into whole grid steps. The first
    /// tick of a round performs one immediate step and starts the clock;
    /// later ticks accumulate against the last step time and perform one
    /// step per covered interval, stopping early when the round ends. The
    /// returned value is the final score when this call found the round
    /// ended, and nothing otherwise.
    #[verifier::rlimit(100)]
    #[verifier::spinoff_prover]
    pub fn advance(&mut self, now_ms: u64) -> (r: Option<usize>)
        requires
            old(self).wf(),
            old(self)@.last matches Some(t) ==> now_ms >= t,
        ensures
            final(self).wf(),
            advance_rel(
                old(self)@,
                now_ms as int,
                final(self)@,
                match r {
                    Some(s) => Some(s as int),
                    None => None::<int>,
                },
            ),
    {
        if self.over {
            return Some(self.score);
        }
        match self.last_step_ms {
            None => {
                self.last_step_ms = Some(now_ms);
                proof {
                    assert(self@ == with_last(old(self)@, Some(now_ms as int)));
                }
                self.step();
                None
            },
            Some(t) => {
                let mut elapsed = now_ms - t;
                if elapsed < self.interval_ms {
                    proof {
                        assert(self@ == old(self)@);
                    }
                    return None;
                }
                let ghost pre_model = self@;
                let ghost mut tr: Seq<SimModel> = seq![self@];
                let ghost mut rem: Seq<int> = seq![elapsed as int];
                while elapsed >= self.interval_ms && !self.over
                    invariant
                        self.wf(),
                        advance_run(tr, rem),
                        tr.len() >= 1,
                        rem.len() == tr.len(),
                        tr[0] == pre_model,
                        rem[0] == now_ms - t,
                        tr.last() == self@,
                        rem.last() == elapsed as int,
                        tr.len() >= 2 || self@ == pre_model,
                    decreases dist_ahead(self@),
                {
                    let ghost prev = self@;
                    proof {
                        assert(in_bounds(prev.body[0], prev.width, prev.height));
                    }
                    self.step();
                    proof {
                        lemma_step_interval(prev, self@);
                        lemma_step_dist(prev, self@);
                    }
                    elapsed = elapsed - self.interval_ms;
                    proof {
                        lemma_run_snoc(tr, rem, self@, elapsed as int);
                        tr = tr + seq![self@];
                        rem = rem + seq![elapsed as int];
                    }
                }
                self.last_step_ms = Some(now_ms);
                let result = if self.over {
                    Some(self.score)
                } else {
                    None
                };
                proof {
                    assert(tr.len() >= 2);
                    assert(self@ == with_last(tr.last(), Some(now_ms as int)));
                    let r_int = match result {
                        Some(s) => Some(s as int),
                        None => None::<int>,
                    };
                    assert({
                        &&& advance_run(tr, rem)
                        &&& tr.len() >= 2
                        &&& tr[0] == pre_model
                        &&& rem[0] == now_ms - t
                        &&& self@ == with_last(tr.last(), Some(now_ms as int))
                        &&& (tr.last().over || rem.last() < tr.last().interval)
                        &&& r_int == (if tr.last().over { Some(tr.last().score) } else { None::<int> })
                    });
                }
                result
            },
        }
    }

    /// The grid width in cells.
    pub fn width(&self) -> (r: i32)
        ensures
            r == self@.width,
    {
        self.width
    }

    /// The grid height in cells.
    pub fn height(&self) -> (r: i32)
        ensures
            r == self@.height,
    {
        self.height
    }

    /// How many apples this round has eaten.
    pub fn score(&self) -> (r: usize)
        ensures
            r == self@.score,
    {
        self.score
    }

    /// The apple's cell.
    pub fn apple(&self) -> (r: Cell)
        ensures
            r == self@.apple,
    {
        self.apple
    }

    /// The current heading.
    pub fn direction(&self) -> (r: Direction)
        ensures
            r == self@.dir,
    {
        self.direction
    }

    /// Milliseconds required between consecutive steps.
    pub fn interval_ms(&self) -> (r: u64)
        ensures
            r == self@.interval,
    {
        self.interval_ms
    }

    /// When the last step was taken, if the clock has started.
    pub fn last_step_ms(&self) -> (r: Option<u64>)
        ensures
            self@.last == (match r {
                Some(t) => Some(t as int),
                None => None::<int>,
            }),
    {
        self.last_step_ms
    }

    /// Whether the round has ended.
    pub fn game_over(&self) -> (r: bool)
        ensures
            r == self@.over,
    {
        self.over
    }

    /// Whether the round ended because no free cell was left for the apple.
    pub fn apple_fault(&self) -> (r: bool)
        ensures
            r == self@.fault,
    {
        self.fault
    }

    /// The head's cell.
    pub fn head(&self) -> (r: Cell)
        requires
            self@.body.len() >= 1,
        ensures
            r == self@.body[0],
    {
        self.snake[0]
    }

    /// The full snake body, head first.
    pub fn body(&self) -> (r: Vec<Cell>)
        ensures
            r@ == self@.body,
    {
        let n = self.snake.len();
        let mut v: Vec<Cell> = Vec::new();
        let mut i: usize = 0;
        while i < n
            invariant
                n == self@.body.len(),
                0 <= i <= n,
                v@.len() == i,
                forall|j: int| 0 <= j < i ==> v@[j] == self@.body[j],
            decreases n - i,
        {
            v.push(self.snake[i]);
            i = i + 1;
        }
        proof {
            assert(v@ =~= self@.body);
        }
        v
    }
}

} // verus!
