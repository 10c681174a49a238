//! The optimizer's global laws, stated over the engine invariant.

use vstd::prelude::*;
use crate::objective::Objective;
use crate::scalar::{spec_rank, spec_le, is_nan_bits, in_interval, lemma_rank_orders};
use crate::sce::Sce;

verus! {

/// The recorded best objective value never worsens from one step to the
/// next: under the engine invariant, a later criteria entry always ranks at
/// least as well as an earlier one.
pub proof fn lemma_best_never_worsens(s: &Sce, i: int, j: int)
    requires
        s.wf(),
        0 <= i <= j < s.criteria@.len(),
    ensures
        spec_rank(s.criteria@[j], s.minimize) <= spec_rank(s.criteria@[i], s.minimize),
{
}

/// The same law in IEEE order, away from NaN: a minimized best never
/// increases, a maximized best never decreases.
pub proof fn lemma_best_never_worsens_ieee(s: &Sce, i: int, j: int)
    requires
        s.wf(),
        0 <= i <= j < s.criteria@.len(),
        !is_nan_bits(s.criteria@[i]),
        !is_nan_bits(s.criteria@[j]),
    ensures
        s.minimize ==> spec_le(s.criteria@[j], s.criteria@[i]),
        !s.minimize ==> spec_le(s.criteria@[i], s.criteria@[j]),
{
    lemma_best_never_worsens(s, i, j);
    lemma_rank_orders(s.criteria@[j], s.criteria@[i], s.minimize);
}

/// Population shape: the population always holds
/// `n_complexes * (2 * n_params + 1)` candidate vectors of `n_params`
/// components, with a three-column objective row each.
pub proof fn lemma_population_shape(s: &Sce)
    requires
        s.wf(),
    ensures
        s.n_pop == s.n_complexes * (2 * s.model.n_params + 1),
        s.population@.len() == s.n_pop,
        s.objectives@.len() == s.n_pop,
        forall|i: int|
            0 <= i < s.n_pop ==> (#[trigger] s.population@[i])@.len() == s.model.n_params,
        forall|i: int| 0 <= i < s.n_pop ==> (#[trigger] s.objectives@[i])@.len() == 3,
{
}

/// After sorting, row 0 is the best under the chosen objective: no
/// population member ranks better.
pub proof fn lemma_row_zero_best(s: &Sce, i: int)
    requires
        s.wf(),
        0 <= i < s.population@.len(),
    ensures
        spec_rank(s.objectives@[0]@[s.obj_idx as int], s.minimize) <= spec_rank(
            s.objectives@[i]@[s.obj_idx as int],
            s.minimize,
        ),
{
    if i > 0 {
        assert(spec_rank(s.objectives@[0]@[s.obj_idx as int], s.minimize) <= spec_rank(
            s.objectives@[i]@[s.obj_idx as int],
            s.minimize,
        ));
    }
}

/// Bounds: every stored candidate parameter vector lies componentwise
/// within the lower and upper bounds under IEEE order.
pub proof fn lemma_population_in_bounds(s: &Sce, i: int, j: int)
    requires
        s.wf(),
        0 <= i < s.population@.len(),
        0 <= j < s.population@[i]@.len(),
    ensures
        in_interval(s.model.lower@[j], s.model.upper@[j], s.population@[i]@[j]),
{
    assert(crate::sce::row_in_box(s.model.lower@, s.model.upper@, s.population@[i]@));
}

/// Evaluation accounting: a completed shuffled-complex step (one whose
/// normalized geometric range or criteria change is pending) spent at least
/// one and at most three model evaluations per evolution round, so between
/// `n_complexes * n_evolution_steps` and three times that many in all
/// (short of the saturated count, which one step cannot reach from any
/// admissible budget).
pub proof fn lemma_step_evaluation_budget(s: &Sce)
    requires
        s.wf(),
        s.phase == crate::sce::Phase::GnrngScalar || s.phase == crate::sce::Phase::CriteriaScalar,
    ensures
        s.n_calls <= s.step_start_calls + 3 * (s.n_complexes * s.n_evolution_steps),
        s.n_calls >= s.step_start_calls + s.n_complexes * s.n_evolution_steps || s.n_calls
            == usize::MAX,
{
}

/// The chosen objective drives the sort in the right direction: RMSE is
/// minimized, NSE and KGE are maximized, in objective-row columns 0, 1 and
/// 2 respectively.
pub proof fn lemma_objective_direction(s: &Sce)
    requires
        s.wf(),
    ensures
        s.objective == Objective::Rmse ==> s.obj_idx == 0 && s.minimize,
        s.objective == Objective::Nse ==> s.obj_idx == 1 && !s.minimize,
        s.objective == Objective::Kge ==> s.obj_idx == 2 && !s.minimize,
{
}

} // verus!
