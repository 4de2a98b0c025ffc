//! The mathematical model of one round.
//!
//! `SimModel` is the ghost image of a running round; `step_rel` says exactly
//! what one grid-step does to it, and `advance_run` records the chain of
//! steps one `advance` call performs. The executable simulation promises
//! these relations in its contracts, and the laws in `laws` are proved
//! about them.

use vstd::prelude::*;
use crate::cell::{Cell, Direction, delta_x, delta_y, in_bounds};

verus! {

/// The state of one round, as mathematics: grid size, snake body
/// (head first), apple, heading, move interval in milliseconds, the
/// timestamp of the last step, the terminal flag, the apple-placement
/// fault flag, and the score.
#[verifier::ext_equal]
pub struct SimModel {
    pub width: int,
    pub height: int,
    pub body: Seq<Cell>,
    pub apple: Cell,
    pub dir: Direction,
    pub interval: int,
    pub last: Option<int>,
    pub over: bool,
    pub fault: bool,
    pub score: int,
}

/// The starting move interval of a round, in milliseconds.
pub const START_INTERVAL_MS: u64 = 500;

/// The cell the head would move onto next.
pub open spec fn next_head(m: SimModel) -> Cell {
    Cell {
        x: (m.body[0].x + delta_x(m.dir)) as i32,
        y: (m.body[0].y + delta_y(m.dir)) as i32,
    }
}

/// Whether the next move leaves the grid.
pub open spec fn hits_wall(m: SimModel) -> bool {
    !in_bounds(next_head(m), m.width, m.height)
}

/// Whether the next move lands on the body as it stands before the step,
/// the current tail cell included.
pub open spec fn hits_body(m: SimModel) -> bool {
    m.body.contains(next_head(m))
}

/// Whether the next move eats the apple.
pub open spec fn eats(m: SimModel) -> bool {
    next_head(m) == m.apple
}

/// Whether the snake occupies every cell of the grid, so that no apple
/// can be placed.
pub open spec fn grid_covered(width: int, height: int, body: Seq<Cell>) -> bool {
    forall|x: i32, y: i32|
        0 <= x < width && 0 <= y < height ==> #[trigger] body.contains(Cell { x, y })
}

/// Everything one step does short of re-placing the apple: move the head,
/// decide termination against the pre-step body, grow or shift, shrink the
/// interval and raise the score on eating.
pub open spec fn step_core(m: SimModel) -> SimModel {
    let nh = next_head(m);
    let ate = eats(m);
    SimModel {
        body: if ate { seq![nh] + m.body } else { seq![nh] + m.body.drop_last() },
        interval: if ate { m.interval * 9 / 10 } else { m.interval },
        score: if ate { m.score + 1 } else { m.score },
        over: hits_wall(m) || hits_body(m),
        ..m
    }
}

/// One full `step`: the core transition, then apple placement when the
/// apple was eaten. The new apple is any free in-bounds cell; if the new
/// body covers the grid, the round ends with the fault flag raised and the
/// apple left in place.
pub open spec fn step_rel(pre: SimModel, post: SimModel) -> bool {
    let c = step_core(pre);
    &&& !pre.over
    &&& post.width == pre.width
    &&& post.height == pre.height
    &&& post.dir == pre.dir
    &&& post.last == pre.last
    &&& post.body == c.body
    &&& post.score == c.score
    &&& post.interval == c.interval
    &&& if eats(pre) {
        if grid_covered(pre.width, pre.height, c.body) {
            &&& post.over == true
            &&& post.fault == true
            &&& post.apple == pre.apple
        } else {
            &&& post.over == c.over
            &&& post.fault == pre.fault
            &&& in_bounds(post.apple, pre.width, pre.height)
            &&& !c.body.contains(post.apple)
        }
    } else {
        &&& post.apple == pre.apple
        &&& post.over == c.over
        &&& post.fault == pre.fault
    }
}

/// A chain of consecutive steps: each entry steps to the next.
pub open spec fn step_seq(tr: Seq<SimModel>) -> bool {
    forall|i: int| 0 <= i < tr.len() - 1 ==> step_rel(#[trigger] tr[i], tr[i + 1])
}

/// The record of one catch-up loop of `advance`: `tr` are the round states
/// it passed through and `rem[i]` the elapsed time still unconsumed at
/// `tr[i]`. A step is taken only while the remainder covers the current
/// interval and the round is alive; each step consumes its possibly
/// just-shrunk interval.
pub open spec fn advance_run(tr: Seq<SimModel>, rem: Seq<int>) -> bool {
    &&& tr.len() >= 1
    &&& rem.len() == tr.len()
    &&& forall|i: int| 0 <= i < tr.len() - 1 ==> {
        &&& !(#[trigger] tr[i]).over
        &&& rem[i] >= tr[i].interval
        &&& step_rel(tr[i], tr[i + 1])
        &&& rem[i + 1] == rem[i] - tr[i + 1].interval
    }
}

/// The model with the last-step timestamp replaced.
pub open spec fn with_last(m: SimModel, last: Option<int>) -> SimModel {
    SimModel { last, ..m }
}

/// Well-formedness of a round: sane grid, the score counts exactly the
/// cells grown, the interval never rose above its start, and, while the
/// round is alive, the body is a duplicate-free in-bounds sequence and the
/// apple is a free in-bounds cell.
pub open spec fn model_wf(m: SimModel) -> bool {
    &&& 1 <= m.width
    &&& 1 <= m.height
    &&& m.width * m.height <= i32::MAX
    &&& m.body.len() >= 1
    &&& m.score == m.body.len() - 1
    &&& 0 <= m.interval <= START_INTERVAL_MS
    &&& !m.over ==> {
        &&& forall|i: int| 0 <= i < m.body.len() ==> in_bounds(#[trigger] m.body[i], m.width, m.height)
        &&& m.body.no_duplicates()
        &&& in_bounds(m.apple, m.width, m.height)
        &&& !m.body.contains(m.apple)
    }
}

/// What `advance(now)` does, in full: an ended round only reports its
/// score; a first tick performs one immediate step and starts the clock;
/// a sub-interval tick is coalesced; otherwise a recorded catch-up run is
/// performed, the clock is moved to `now`, and the round reports its end
/// exactly when the run died.
pub open spec fn advance_rel(pre: SimModel, now: int, post: SimModel, r: Option<int>) -> bool {
    if pre.over {
        post == pre && r == Some(pre.score)
    } else if pre.last is None {
        &&& step_rel(with_last(pre, Some(now)), post)
        &&& r is None
    } else {
        let t = pre.last->0;
        if now - t < pre.interval {
            post == pre && r is None
        } else {
            exists|tr: Seq<SimModel>, rem: Seq<int>| {
                &&& #[trigger] advance_run(tr, rem)
                &&& tr.len() >= 2
                &&& tr[0] == pre
                &&& rem[0] == now - t
                &&& post == with_last(tr.last(), Some(now))
                &&& (tr.last().over || rem.last() < tr.last().interval)
                &&& r == (if tr.last().over { Some(tr.last().score) } else { None::<int> })
            }
        }
    }
}

/// How many cells lie between the head and the wall it is heading for,
/// the head's own cell included. Each step shortens it by one, which
/// bounds the catch-up loop of `advance`.
pub open spec fn dist_ahead(m: SimModel) -> int {
    match m.dir {
        Direction::Right => m.width - m.body[0].x,
        Direction::Left => m.body[0].x + 1,
        Direction::Down => m.height - m.body[0].y,
        Direction::Up => m.body[0].y + 1,
    }
}

/// Membership in a sequence with one cell put in front.
pub proof fn lemma_cons_contains(a: Cell, s: Seq<Cell>, x: Cell)
    ensures
        (seq![a] + s).contains(x) <==> (x == a || s.contains(x)),
{
    if (seq![a] + s).contains(x) {
        let i = choose|i: int| 0 <= i < (seq![a] + s).len() && (seq![a] + s)[i] == x;
        if i > 0 {
            assert(s[i - 1] == x);
        }
    }
    if x == a {
        assert((seq![a] + s)[0] == x);
    }
    if s.contains(x) {
        let i = choose|i: int| 0 <= i < s.len() && s[i] == x;
        assert((seq![a] + s)[i + 1] == x);
    }
}

/// A well-formed grid fits each dimension into `i32` on its own.
pub proof fn lemma_dims(m: SimModel)
    requires
        model_wf(m),
    ensures
        m.width <= i32::MAX,
        m.height <= i32::MAX,
{
    assert(m.width <= m.width * m.height && m.height <= m.width * m.height)
        by (nonlinear_arith)
        requires 1 <= m.width && 1 <= m.height;
}

/// Shrinking by one tenth keeps the interval between zero and its old value.
pub proof fn lemma_shrink_interval(i: int)
    requires
        i >= 0,
    ensures
        0 <= i * 9 / 10 <= i,
{
    assert(0 <= i * 9 / 10 <= i) by (nonlinear_arith)
        requires i >= 0;
}

/// One step keeps the round well formed.
pub proof fn lemma_step_preserves_wf(pre: SimModel, post: SimModel)
    requires
        model_wf(pre),
        step_rel(pre, post),
    ensures
        model_wf(post),
{
    let nh = next_head(pre);
    let c = step_core(pre);
    lemma_shrink_interval(pre.interval);
    if !post.over {
        assert(!hits_wall(pre) && !hits_body(pre));
        if eats(pre) {
            assert(post.body == seq![nh] + pre.body);
            assert forall|i: int| 0 <= i < post.body.len() implies
                in_bounds(#[trigger] post.body[i], post.width, post.height) by {
                if i > 0 {
                    assert(post.body[i] == pre.body[i - 1]);
                }
            }
            assert(post.body.no_duplicates()) by {
                assert forall|i: int, j: int|
                    0 <= i < post.body.len() && 0 <= j < post.body.len() && i != j
                    implies post.body[i] != post.body[j] by {
                    if i == 0 {
                        assert(post.body[j] == pre.body[j - 1]);
                        assert(!pre.body.contains(nh));
                    } else if j == 0 {
                        assert(post.body[i] == pre.body[i - 1]);
                        assert(!pre.body.contains(nh));
                    } else {
                        assert(post.body[i] == pre.body[i - 1]);
                        assert(post.body[j] == pre.body[j - 1]);
                    }
                }
            }
        } else {
            let t = pre.body.drop_last();
            assert(post.body == seq![nh] + t);
            assert forall|i: int| 0 <= i < post.body.len() implies
                in_bounds(#[trigger] post.body[i], post.width, post.height) by {
                if i > 0 {
                    assert(post.body[i] == pre.body[i - 1]);
                }
            }
            assert(post.body.no_duplicates()) by {
                assert forall|i: int, j: int|
                    0 <= i < post.body.len() && 0 <= j < post.body.len() && i != j
                    implies post.body[i] != post.body[j] by {
                    if i == 0 {
                        assert(post.body[j] == pre.body[j - 1]);
                        assert(!pre.body.contains(nh));
                    } else if j == 0 {
                        assert(post.body[i] == pre.body[i - 1]);
                        assert(!pre.body.contains(nh));
                    } else {
                        assert(post.body[i] == pre.body[i - 1]);
                        assert(post.body[j] == pre.body[j - 1]);
                    }
                }
            }
            assert(!post.body.contains(post.apple)) by {
                lemma_cons_contains(nh, t, post.apple);
                if t.contains(post.apple) {
                    let i = choose|i: int| 0 <= i < t.len() && t[i] == post.apple;
                    assert(pre.body[i] == post.apple);
                    assert(pre.body.contains(post.apple));
                }
            }
        }
    }
}

/// Extending a catch-up run by one more step keeps it a run.
#[verifier::rlimit(100)]
#[verifier::spinoff_prover]
pub proof fn lemma_run_snoc(tr: Seq<SimModel>, rem: Seq<int>, post: SimModel, e: int)
    requires
        advance_run(tr, rem),
        !tr.last().over,
        rem.last() >= tr.last().interval,
        step_rel(tr.last(), post),
        e == rem.last() - post.interval,
    ensures
        advance_run(tr + seq![post], rem + seq![e]),
        (tr + seq![post]).last() == post,
        (rem + seq![e]).last() == e,
        (tr + seq![post])[0] == tr[0],
        (rem + seq![e])[0] == rem[0],
        (tr + seq![post]).len() == tr.len() + 1,
{
    let tr2 = tr + seq![post];
    let rem2 = rem + seq![e];
    assert forall|i: int| 0 <= i < tr2.len() - 1 implies {
        &&& !(#[trigger] tr2[i]).over
        &&& rem2[i] >= tr2[i].interval
        &&& step_rel(tr2[i], tr2[i + 1])
        &&& rem2[i + 1] == rem2[i] - tr2[i + 1].interval
    } by {
        if i < tr.len() - 1 {
            assert(tr2[i] == tr[i]);
            assert(tr2[i + 1] == tr[i + 1]);
        } else {
            assert(tr2[i] == tr.last());
            assert(tr2[i + 1] == post);
        }
    }
}

/// Each step moves the head one cell closer to the wall ahead.
pub proof fn lemma_step_dist(pre: SimModel, post: SimModel)
    requires
        model_wf(pre),
        step_rel(pre, post),
    ensures
        dist_ahead(post) == dist_ahead(pre) - 1,
{
    lemma_dims(pre);
    let nh = next_head(pre);
    assert(in_bounds(pre.body[0], pre.width, pre.height));
    assert(post.body[0] == nh);
}

} // verus!
