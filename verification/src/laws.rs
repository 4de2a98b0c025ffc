//! The general laws of the simulation, proved once over the step and
//! run relations that the executable code promises in its contracts.

use vstd::prelude::*;
use crate::cell::in_bounds;
use crate::model::{
    SimModel, advance_run, eats, hits_body, hits_wall, lemma_shrink_interval,
    lemma_step_preserves_wf, model_wf, step_rel, step_seq,
};

verus! {

/// The snake grows by exactly one cell in a step that eats the apple and
/// keeps its length in every other step.
pub proof fn lemma_step_growth(pre: SimModel, post: SimModel)
    requires
        pre.body.len() >= 1,
        step_rel(pre, post),
    ensures
        post.body.len() == pre.body.len() + (if eats(pre) { 1int } else { 0int }),
{
}

/// Over any chain of steps the snake's length never decreases.
pub proof fn lemma_run_length_monotone(tr: Seq<SimModel>, i: int, j: int)
    requires
        step_seq(tr),
        forall|n: int| 0 <= n < tr.len() ==> (#[trigger] tr[n]).body.len() >= 1,
        0 <= i <= j < tr.len(),
    ensures
        tr[i].body.len() <= tr[j].body.len(),
    decreases j - i,
{
    if i < j {
        lemma_run_length_monotone(tr, i, j - 1);
        lemma_step_growth(tr[j - 1], tr[j]);
    }
}

/// A step that eats multiplies the interval by nine tenths, truncated;
/// any other step leaves it alone. Either way it never grows.
pub proof fn lemma_step_interval(pre: SimModel, post: SimModel)
    requires
        pre.interval >= 0,
        step_rel(pre, post),
    ensures
        post.interval == (if eats(pre) { pre.interval * 9 / 10 } else { pre.interval }),
        0 <= post.interval <= pre.interval,
{
    lemma_shrink_interval(pre.interval);
}

/// Over any chain of steps the interval never increases.
pub proof fn lemma_run_interval_monotone(tr: Seq<SimModel>, i: int, j: int)
    requires
        step_seq(tr),
        forall|n: int| 0 <= n < tr.len() ==> (#[trigger] tr[n]).interval >= 0,
        0 <= i <= j < tr.len(),
    ensures
        tr[j].interval <= tr[i].interval,
    decreases j - i,
{
    if i < j {
        lemma_run_interval_monotone(tr, i, j - 1);
        lemma_step_interval(tr[j - 1], tr[j]);
    }
}

/// Moving into any cell outside the grid ends the round on that step.
pub proof fn lemma_wall_ends_round(pre: SimModel, post: SimModel)
    requires
        step_rel(pre, post),
        hits_wall(pre),
    ensures
        post.over,
{
}

/// Moving the head onto any cell of the pre-step body, the current tail
/// cell included, ends the round on that step.
pub proof fn lemma_self_hit_ends_round(pre: SimModel, post: SimModel)
    requires
        step_rel(pre, post),
        hits_body(pre),
    ensures
        post.over,
{
}

/// After any step that does not end the round, the apple lies on the grid
/// and on no cell of the snake.
pub proof fn lemma_step_apple_free(pre: SimModel, post: SimModel)
    requires
        model_wf(pre),
        step_rel(pre, post),
        !post.over,
    ensures
        in_bounds(post.apple, post.width, post.height),
        !post.body.contains(post.apple),
{
    lemma_step_preserves_wf(pre, post);
}

/// The step relation is deterministic up to the randomly placed apple:
/// two steps from one state that pick the same apple end in one state.
pub proof fn lemma_step_deterministic(pre: SimModel, a: SimModel, b: SimModel)
    requires
        step_rel(pre, a),
        step_rel(pre, b),
        a.apple == b.apple,
    ensures
        a == b,
{
    assert(a =~= b);
}

/// The accumulator converts elapsed time into whole steps without drift:
/// a catch-up run that starts `k` whole intervals plus a remainder behind,
/// eats nothing, and ends alive with less than one interval left has
/// performed exactly `k` steps.
#[verifier::rlimit(100)]
pub proof fn lemma_accumulator(tr: Seq<SimModel>, rem: Seq<int>, ivl: int, k: nat, r: int)
    requires
        advance_run(tr, rem),
        forall|i: int| 0 <= i < tr.len() - 1 ==> !eats(#[trigger] tr[i]),
        tr[0].interval == ivl,
        rem[0] == k * ivl + r,
        0 <= r < ivl,
        !tr.last().over,
        rem.last() < tr.last().interval,
    ensures
        tr.len() == k + 1,
    decreases k,
{
    if k == 0 {
        assert(k * ivl == 0) by (nonlinear_arith)
            requires k == 0;
        assert(tr.len() == 1);
    } else {
        assert(k * ivl >= ivl) by (nonlinear_arith)
            requires k >= 1 && ivl > 0;
        assert(tr.len() >= 2);
        let tr1 = tr.subrange(1, tr.len() as int);
        let rem1 = rem.subrange(1, rem.len() as int);
        assert(step_rel(tr[0], tr[1]));
        assert(tr1[0].interval == ivl);
        assert((k - 1) * ivl == k * ivl - ivl) by (nonlinear_arith);
        assert(rem1[0] == (k - 1) * ivl + r);
        assert(advance_run(tr1, rem1)) by {
            assert forall|i: int| 0 <= i < tr1.len() - 1 implies {
                &&& !(#[trigger] tr1[i]).over
                &&& rem1[i] >= tr1[i].interval
                &&& step_rel(tr1[i], tr1[i + 1])
                &&& rem1[i + 1] == rem1[i] - tr1[i + 1].interval
            } by {
                assert(tr1[i] == tr[i + 1]);
                assert(tr1[i + 1] == tr[i + 2]);
            }
        }
        assert forall|i: int| 0 <= i < tr1.len() - 1 implies !eats(#[trigger] tr1[i]) by {
            assert(tr1[i] == tr[i + 1]);
        }
        assert(tr1.last() == tr.last());
        assert(rem1.last() == rem.last());
        lemma_accumulator(tr1, rem1, ivl, (k - 1) as nat, r);
    }
}

} // verus!
