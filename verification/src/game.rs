//! The top-level mode of the application and its transition rules.
//!
//! `Game` owns the mode — menu, a running round, or game over — and reacts
//! to abstract commands and time ticks. Transitions replace the whole mode
//! value; a round never outlives the `Running` mode that holds it.

use vstd::prelude::*;
use crate::cell::{Cell, Direction};
use crate::model::{SimModel, advance_rel, model_wf};
use crate::random::RandomSource;
use crate::sim::RunningGame;

verus! {

/// The grid width of a standard round, in cells.
pub const GRID_WIDTH: i32 = 10;

/// The grid height of a standard round, in cells.
pub const GRID_HEIGHT: i32 = 10;

/// A discrete player command, already mapped from raw input by the caller.
#[derive(Clone, Copy, PartialEq, Eq, Structural, Debug)]
pub enum Command {
    SetDirection(Direction),
    Start,
    Restart,
    Quit,
}

/// The application mode: the menu, one running round, or the game-over
/// screen carrying the final score.
pub enum State {
    Menu,
    Running(RunningGame),
    GameOver(usize),
}

/// The ghost image of the mode.
pub enum StateModel {
    Menu,
    Running(SimModel),
    GameOver(int),
}

impl View for State {
    type V = StateModel;

    open spec fn view(&self) -> StateModel {
        match self {
            State::Menu => StateModel::Menu,
            State::Running(g) => StateModel::Running(g@),
            State::GameOver(s) => StateModel::GameOver(*s as int),
        }
    }
}

/// What a freshly started round looks like: the standard grid, a one-cell
/// snake at its center, heading down, the starting interval, a stopped
/// clock, no score, and a well-formed live state.
pub open spec fn fresh_round(m: SimModel) -> bool {
    &&& m.width == GRID_WIDTH
    &&& m.height == GRID_HEIGHT
    &&& m.body == seq![(Cell { x: 5i32, y: 5i32 })]
    &&& m.dir == Direction::Down
    &&& m.interval == 500
    &&& m.last is None
    &&& m.score == 0
    &&& !m.over
    &&& !m.fault
    &&& model_wf(m)
}

/// The game-state machine: the current mode and the random source that
/// seeds each new round.
pub struct Game {
    state: State,
    source: RandomSource,
}

impl View for Game {
    type V = StateModel;

    closed spec fn view(&self) -> StateModel {
        self.state@
    }
}

impl Game {
    /// The machine is well formed: a running round is well formed.
    pub open spec fn wf(self) -> bool {
        match self@ {
            StateModel::Running(m) => model_wf(m),
            _ => true,
        }
    }

    /// A new machine starts in the menu.
    pub fn new(source: RandomSource) -> (g: Game)
        ensures
            g.wf(),
            g@ == StateModel::Menu,
    {
        Game { state: State::Menu, source }
    }

    /// The current mode, for rendering.
    pub fn state(&self) -> (r: &State)
        ensures
            r@ == self@,
    {
        &self.state
    }

    /// React to one command, as the transition table says: `Start` in the
    /// menu and `Restart` after a round begin a fresh round; a direction
    /// command is forwarded to a running round; `Quit` in the menu asks
    /// the caller to terminate; every other command is silently ignored.
    pub fn command(&mut self, cmd: Command) -> (quit: bool)
        requires
            old(self).wf(),
        ensures
            final(self).wf(),
            match cmd {
                Command::SetDirection(d) => match old(self)@ {
                    StateModel::Running(m) => final(self)@ == StateModel::Running(
                        (SimModel { dir: d, ..m }),
                    ),
                    _ => final(self)@ == old(self)@,
                },
                Command::Start => match old(self)@ {
                    StateModel::Menu => final(self)@ matches StateModel::Running(m)
                        && fresh_round(m),
                    _ => final(self)@ == old(self)@,
                },
                Command::Restart => match old(self)@ {
                    StateModel::GameOver(_) => final(self)@ matches StateModel::Running(m)
                        && fresh_round(m),
                    _ => final(self)@ == old(self)@,
                },
                Command::Quit => final(self)@ == old(self)@,
            },
            quit == (cmd is Quit && old(self)@ is Menu),
    {
        match cmd {
            Command::SetDirection(d) => {
                match &mut self.state {
                    State::Running(g) => {
                        g.set_direction(d);
                    },
                    _ => {},
                }
                false
            },
            Command::Start => {
                let in_menu = match &self.state {
                    State::Menu => true,
                    _ => false,
                };
                if in_menu {
                    let src = self.source.fresh();
                    let round = RunningGame::new(GRID_WIDTH, GRID_HEIGHT, src);
                    self.state = State::Running(round);
                }
                false
            },
            Command::Restart => {
                let ended = match &self.state {
                    State::GameOver(_) => true,
                    _ => false,
                };
                if ended {
                    let src = self.source.fresh();
                    let round = RunningGame::new(GRID_WIDTH, GRID_HEIGHT, src);
                    self.state = State::Running(round);
                }
                false
            },
            Command::Quit => {
                match &self.state {
                    State::Menu => true,
                    _ => false,
                }
            },
        }
    }

    /// Forward one time tick to the running round, if any. When the round
    /// reports its end, the mode moves to game over with the final score;
    /// in any other mode the tick does nothing.
    pub fn update(&mut self, now_ms: u64)
        requires
            old(self).wf(),
            match old(self)@ {
                StateModel::Running(m) => match m.last {
                    Some(t) => now_ms >= t,
                    None => true,
                },
                _ => true,
            },
        ensures
            final(self).wf(),
            match old(self)@ {
                StateModel::Running(m) => exists|p: SimModel, rr: Option<int>| {
                    &&& #[trigger] advance_rel(m, now_ms as int, p, rr)
                    &&& final(self)@ == (match rr {
                        Some(s) => StateModel::GameOver(s),
                        None => StateModel::Running(p),
                    })
                },
                _ => final(self)@ == old(self)@,
            },
    {
        let mut ended: Option<usize> = None;
        let ghost mut post: SimModel = self@->Running_0;
        match &mut self.state {
            State::Running(g) => {
                ended = g.advance(now_ms);
                proof {
                    post = g@;
                }
            },
            _ => {},
        }
        match ended {
            Some(s) => {
                self.state = State::GameOver(s);
            },
            None => {},
        }
        proof {
            if old(self)@ is Running {
                let m = old(self)@->Running_0;
                let rr = match ended {
                    Some(s) => Some(s as int),
                    None => None::<int>,
                };
                assert(advance_rel(m, now_ms as int, post, rr));
            }
        }
    }
}

} // verus!
