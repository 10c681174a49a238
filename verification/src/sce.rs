//! The Shuffled Complex Evolution (SCE-UA) optimizer.
//!
//! The optimizer runs as a request/reply protocol. Everything discrete —
//! population bookkeeping, partitioning into complexes, simplex member
//! selection, sorting, bounds enforcement, convergence decisions and the
//! random stream — is decided here and verified. The handful of
//! floating-point kernels (model simulation, metric scoring, centroid
//! arithmetic, uniform sampling, the convergence statistics) is delegated to
//! the caller: `init` and `step` return a [`Request`], the caller computes
//! the requested values and hands them back through [`resume`](Sce::resume),
//! until an [`Outcome`] other than `Pending` comes out.
//!
//! The requested floating-point kernels are pure functions of the request's
//! payload, so a run is reproducible: with one seed and one forcing, every
//! request, and with a caller computing the same kernels, every reply and
//! every result, is bit-for-bit the same.
//!
//! A caller whose own computation fails (a simulation it cannot run, say)
//! simply abandons the exchange. The stored population, objectives,
//! criteria, best parameters and convergence flag keep their values from
//! before the exchange began — they are replaced only when a whole step
//! (or initialization) absorbs its final reply — while the evaluation count
//! and the stream cursor keep whatever the partial exchange consumed. The
//! engine then stays in the abandoned phase, where `step` refuses with
//! `Protocol`; a fresh `init` starts over from any phase.

use vstd::prelude::*;
use crate::data::{Data, data_wf};
use crate::errors::{Error, MetricsError};
use crate::models::{ModelInfo, model_wf, resolve, RunoffKind, SnowKind};
use crate::models::{gr4j_lower, gr4j_upper, gr4j_midpoints};
use crate::models::{cemaneige_lower, cemaneige_upper, cemaneige_midpoints, cemaneige_defaults};
use crate::objective::Objective;
use crate::rng::{SeedStream, chacha_stream, stream_pos};
use crate::scalar::{in_interval, spec_rank, spec_clamp, clamp_b, POS_INF, NEG_INF};
use crate::sorting::{sorted_by_rank, pairs_from, pair_appears, sort_by_objective, is_sort_permutation};
use crate::tri::strictly_inc;

verus! {

/// What the engine is waiting for next.
#[derive(Debug, Clone, Copy, PartialEq, Eq, Structural)]
pub enum Phase {
    /// Between steps; nothing pending.
    Idle,
    /// An initial population was requested (one candidate per draw row).
    InitCandidates,
    /// Objective rows for the initial population were requested.
    InitObjectives,
    /// A reflection candidate was requested.
    ReflectCand,
    /// A uniform replacement for an out-of-bounds reflection was requested.
    UniformCand1,
    /// Objectives of the first candidate of this evolution were requested.
    EvalObj1,
    /// A contraction candidate was requested.
    ContractCand,
    /// Objectives of the contraction candidate were requested.
    EvalObj2,
    /// A uniform last-resort candidate was requested.
    UniformCand3,
    /// Objectives of the last-resort candidate were requested.
    EvalObj3,
    /// The normalized geometric range of the population was requested.
    GnrngScalar,
    /// The relative change over the criteria window was requested.
    CriteriaScalar,
    /// The simulation for the best parameter vector was requested.
    SimSeries,
}

/// A floating-point computation the engine asks its caller for. Scalars are
/// IEEE-754 double-precision encodings.
#[derive(Debug)]
pub enum Request {
    /// One uniform candidate row per `n_params` draws: component `j` of row
    /// `i` is `lower[j] + u * (upper[j] - lower[j])` with
    /// `u = (draws[i * n_params + j] >> 12) / 2^52`. Answered with
    /// `Reply::Rows`.
    UniformRows { draws: Vec<u64>, lower: Vec<u64>, upper: Vec<u64> },
    /// One uniform candidate row from `draws`, as in `UniformRows`.
    /// Answered with `Reply::Candidate`.
    UniformRow { draws: Vec<u64>, lower: Vec<u64>, upper: Vec<u64> },
    /// The reflection `c + (c - w)` of the worst simplex row `w` (the last)
    /// through the centroid `c`, the componentwise mean of the other rows.
    /// Answered with `Reply::Candidate`.
    Reflect { simplex: Vec<Vec<u64>> },
    /// The contraction `(w + c) / 2` of the worst simplex row `w` (the
    /// last) toward the centroid `c` of the other rows. Answered with
    /// `Reply::Candidate`.
    Contract { simplex: Vec<Vec<u64>> },
    /// The objective row (RMSE, NSE, KGE) of the simulation run with each
    /// given parameter vector, scored against the observations. Answered
    /// with `Reply::ObjectiveRows`.
    EvaluateRows { rows: Vec<Vec<u64>> },
    /// The objective row of one parameter vector. Answered with
    /// `Reply::Objectives`.
    Evaluate { params: Vec<u64> },
    /// The normalized geometric range of the population:
    /// `exp(mean_j ln(max(1e-10, (max_i p[i][j] - min_i p[i][j]) / (upper[j] - lower[j]))))`.
    /// Answered with `Reply::Scalar`.
    Gnrng { population: Vec<Vec<u64>>, lower: Vec<u64>, upper: Vec<u64> },
    /// The relative change over the criteria window:
    /// `|window.last - window.first| * 100 / mean(|window[i]|)`, positive
    /// infinity when the mean is zero. Answered with `Reply::Scalar`.
    CriteriaChange { window: Vec<u64> },
    /// The simulated discharge series for one parameter vector. Answered
    /// with `Reply::Series`.
    Simulate { params: Vec<u64> },
}

/// The caller's answer to a [`Request`].
#[derive(Debug)]
pub enum Reply {
    /// Candidate rows, one per requested row.
    Rows(Vec<Vec<u64>>),
    /// One candidate row.
    Candidate(Vec<u64>),
    /// Objective rows (RMSE, NSE, KGE), one per requested row.
    ObjectiveRows(Vec<Vec<u64>>),
    /// One objective row (RMSE, NSE, KGE).
    Objectives(Vec<u64>),
    /// One scalar.
    Scalar(u64),
    /// One simulated series.
    Series(Vec<u64>),
}

/// What a completed `resume` call produced.
#[derive(Debug)]
pub enum Outcome {
    /// The engine needs another reply.
    Pending(Request),
    /// `init` finished: the population stands evaluated and sorted.
    InitDone,
    /// `step` finished, with the values the optimizer exposes after a step.
    StepDone { done: bool, best_params: Vec<u64>, best_simulation: Vec<u64>, best_objectives: Vec<
        u64,
    > },
}

/// Every component of the row lies within the per-component bounds.
pub open spec fn row_in_box(lower: Seq<u64>, upper: Seq<u64>, row: Seq<u64>) -> bool {
    forall|j: int| 0 <= j < row.len() ==> in_interval(lower[j], upper[j], #[trigger] row[j])
}

/// Shape and bounds discipline of a population block: candidate rows of
/// `n_params` components within the bounds box, one three-column objective
/// row each.
pub open spec fn rows_wf(
    rows: Seq<Vec<u64>>,
    objs: Seq<Vec<u64>>,
    lower: Seq<u64>,
    upper: Seq<u64>,
    n_params: int,
) -> bool {
    &&& rows.len() == objs.len()
    &&& forall|i: int| 0 <= i < rows.len() ==> (#[trigger] rows[i])@.len() == n_params
    &&& forall|i: int| 0 <= i < objs.len() ==> (#[trigger] objs[i])@.len() == 3
    &&& forall|i: int| 0 <= i < rows.len() ==> row_in_box(lower, upper, (#[trigger] rows[i])@)
}

/// The first `count` complexes hold the population rows selected by
/// interleaving: member `j` of complex `c` is sorted population row
/// `j * k_c + c`, with its objective row alongside.
pub open spec fn partition_pinned(
    cx: Seq<Vec<Vec<u64>>>,
    cf: Seq<Vec<Vec<u64>>>,
    pop: Seq<Vec<u64>>,
    objs: Seq<Vec<u64>>,
    count: int,
    m_per: int,
    k_c: int,
) -> bool {
    forall|cc: int, j: int|
        0 <= cc < count && 0 <= j < m_per ==> (#[trigger] cx[cc]@[j])@ == pop[j * k_c + cc]@
            && cf[cc]@[j]@ == objs[j * k_c + cc]@
}

/// The mid-step invariants depend only on the complexes, the sizes, the
/// criteria and the model: they carry over to any state agreeing on those
/// fields.
proof fn lemma_complexes_wf_frame(a: Sce, b: Sce)
    requires
        a.complexes_wf(),
        b.initialized == a.initialized,
        b.complexes == a.complexes,
        b.complex_objs == a.complex_objs,
        b.n_complexes == a.n_complexes,
        b.n_per_complex == a.n_per_complex,
        b.model == a.model,
        b.obj_idx == a.obj_idx,
        b.minimize == a.minimize,
        b.criteria == a.criteria,
    ensures
        b.complexes_wf(),
{
    assert forall|c: int| 0 <= c < b.n_complexes implies (#[trigger] b.complexes@[c])@.len()
        == b.n_per_complex by {
        assert(a.complexes@[c]@.len() == a.n_per_complex);
    }
    assert forall|c: int| 0 <= c < b.n_complexes implies rows_wf(
        (#[trigger] b.complexes@[c])@,
        b.complex_objs@[c]@,
        b.model.lower@,
        b.model.upper@,
        b.model.n_params as int,
    ) by {
        assert(rows_wf(
            a.complexes@[c]@,
            a.complex_objs@[c]@,
            a.model.lower@,
            a.model.upper@,
            a.model.n_params as int,
        ));
    }
    assert forall|c: int| 0 <= c < b.n_complexes implies sorted_by_rank(
        (#[trigger] b.complex_objs@[c])@,
        b.obj_idx as int,
        b.minimize,
    ) by {
        assert(sorted_by_rank(a.complex_objs@[c]@, a.obj_idx as int, a.minimize));
    }
    let c0 = choose|c: int|
        0 <= c < a.n_complexes && spec_rank(
            #[trigger] a.complex_objs@[c]@[0]@[a.obj_idx as int],
            a.minimize,
        ) <= spec_rank(a.criteria@.last(), a.minimize);
    assert(0 <= c0 < b.n_complexes && spec_rank(
        #[trigger] b.complex_objs@[c0]@[0]@[b.obj_idx as int],
        b.minimize,
    ) <= spec_rank(b.criteria@.last(), b.minimize));
}

/// The first `j` gathered members of complex `c` are the population rows
/// at the interleaved positions.
pub open spec fn slice_pinned(
    rows: Seq<Vec<u64>>,
    objs: Seq<Vec<u64>>,
    pop: Seq<Vec<u64>>,
    pobjs: Seq<Vec<u64>>,
    c: int,
    k_c: int,
    j: int,
) -> bool {
    forall|jj: int|
        0 <= jj < j ==> (#[trigger] rows[jj])@ == pop[jj * k_c + c]@ && objs[jj]@ == pobjs[jj * k_c
            + c]@
}

/// Each of the first `count` complexes holds `m_per` members and as many
/// objective rows.
pub open spec fn blocks_len(
    cx: Seq<Vec<Vec<u64>>>,
    cf: Seq<Vec<Vec<u64>>>,
    count: int,
    m_per: int,
) -> bool {
    forall|cc: int|
        0 <= cc < count ==> (#[trigger] cx[cc])@.len() == m_per && cf[cc]@.len() == m_per
}

/// The first `upto` merged rows are the complex members laid out complex by
/// complex: merged row `i` is member `i % m_per` of complex `i / m_per`.
pub open spec fn merged_pinned(
    merged: Seq<Vec<u64>>,
    mobj: Seq<Vec<u64>>,
    cx: Seq<Vec<Vec<u64>>>,
    cf: Seq<Vec<Vec<u64>>>,
    upto: int,
    m_per: int,
) -> bool {
    forall|i: int|
        0 <= i < upto ==> (#[trigger] merged[i])@ == cx[i / m_per]@[i % m_per]@ && mobj[i]@ == cf[i
            / m_per]@[i % m_per]@
}

/// A by-value copy of a matrix of encoded scalars.
fn clone_matrix(v: &Vec<Vec<u64>>) -> (r: Vec<Vec<u64>>)
    ensures
        r@.len() == v@.len(),
        forall|i: int| 0 <= i < v@.len() ==> (#[trigger] r@[i])@ == v@[i]@,
{
    let mut out: Vec<Vec<u64>> = Vec::new();
    let mut i: usize = 0;
    while i < v.len()
        invariant
            0 <= i <= v@.len(),
            out@.len() == i,
            forall|k: int| 0 <= k < i ==> (#[trigger] out@[k])@ == v@[k]@,
        decreases v@.len() - i,
    {
        let row = v[i].clone();
        proof {
            assert(row@ =~= v@[i as int]@);
        }
        out.push(row);
        i += 1;
    }
    out
}

/// A permutation of a well-formed population block is well-formed.
proof fn lemma_pairs_shapes(
    rows1: Seq<Vec<u64>>,
    objs1: Seq<Vec<u64>>,
    rows0: Seq<Vec<u64>>,
    objs0: Seq<Vec<u64>>,
    lower: Seq<u64>,
    upper: Seq<u64>,
    n_params: int,
)
    requires
        pairs_from(rows1, objs1, rows0, objs0),
        rows_wf(rows0, objs0, lower, upper, n_params),
    ensures
        rows_wf(rows1, objs1, lower, upper, n_params),
{
    assert forall|i: int| 0 <= i < rows1.len() implies (#[trigger] rows1[i])@.len() == n_params
        && objs1[i]@.len() == 3 && row_in_box(lower, upper, rows1[i]@) by {
        assert(pair_appears(rows1, objs1, rows0, objs0, i));
        let j = choose|j: int|
            0 <= j < rows0.len() && rows1[i]@ == #[trigger] rows0[j]@ && objs1[i]@ == objs0[j]@;
        assert(rows0[j]@.len() == n_params);
        assert(objs0[j]@.len() == 3);
        assert(row_in_box(lower, upper, rows0[j]@));
    }
    assert forall|i: int| 0 <= i < objs1.len() implies (#[trigger] objs1[i])@.len() == 3 by {
        assert(rows1[i]@.len() == n_params && objs1[i]@.len() == 3);
    }
}

/// The SCE-UA optimizer.
///
/// Fields are public so that specifications (and tests) can observe the
/// state; mutate an optimizer only through its methods, which maintain
/// [`wf`](Sce::wf).
#[derive(Debug)]
pub struct Sce {
    pub objective: Objective,
    /// Column of the driving objective in an objective row.
    pub obj_idx: usize,
    /// Whether the driving objective is minimized.
    pub minimize: bool,
    pub k_stop: usize,
    /// Encoded threshold on the relative criteria change (percent).
    pub p_convergence_threshold: u64,
    /// Encoded threshold on the normalized geometric range.
    pub geometric_range_threshold: u64,
    pub max_evaluations: usize,
    pub model: ModelInfo,
    pub n_complexes: usize,
    pub n_per_complex: usize,
    pub n_simplex: usize,
    pub n_evolution_steps: usize,
    pub n_pop: usize,
    pub stream: SeedStream,
    /// Length of the forcing series, set by `init`.
    pub t: usize,
    pub initialized: bool,
    pub done: bool,
    pub n_calls: usize,
    /// Evaluation count at the start of the newest shuffled-complex step.
    pub step_start_calls: usize,
    pub population: Vec<Vec<u64>>,
    pub objectives: Vec<Vec<u64>>,
    /// Best objective value after `init` and after each step, append-only
    /// between initializations.
    pub criteria: Vec<u64>,
    /// The best parameter vector (population row 0 once initialized).
    pub best: Vec<u64>,
    pub phase: Phase,
    /// Mid-step working state: the complexes and their objective rows.
    pub complexes: Vec<Vec<Vec<u64>>>,
    pub complex_objs: Vec<Vec<Vec<u64>>>,
    /// Which complex is evolving.
    pub igs: usize,
    /// Which evolution round of that complex is running.
    pub estep: usize,
    /// The sorted positions of the current simplex within the complex.
    pub sidx: Vec<usize>,
    /// The candidate currently out for evaluation.
    pub cand: Vec<u64>,
    /// The last normalized geometric range received.
    pub gnrng: u64,
}

impl Sce {
    /// Configuration invariants: table shapes, derived sizes and the
    /// objective column.
    pub open spec fn cfg_wf(&self) -> bool {
        &&& model_wf(&self.model)
        &&& 1 <= self.model.n_params <= 7
        &&& self.obj_idx < 3
        &&& (self.objective == Objective::Rmse ==> self.obj_idx == 0 && self.minimize)
        &&& (self.objective == Objective::Nse ==> self.obj_idx == 1 && !self.minimize)
        &&& (self.objective == Objective::Kge ==> self.obj_idx == 2 && !self.minimize)
        &&& self.n_per_complex == 2 * self.model.n_params + 1
        &&& self.n_simplex == self.model.n_params + 1
        &&& self.n_evolution_steps == 2 * self.model.n_params + 1
        &&& 1 <= self.n_complexes <= 100_000
        &&& self.n_pop == self.n_complexes * self.n_per_complex
        &&& 3 <= self.n_pop <= 1_500_000
        &&& self.k_stop >= 1
        &&& self.max_evaluations <= 1_000_000_000
    }

    /// The recorded best objective values never worsen: later entries rank
    /// at least as well as earlier ones.
    pub open spec fn criteria_monotone(&self) -> bool {
        forall|i: int, j: int|
            0 <= i <= j < self.criteria@.len() ==> spec_rank(#[trigger] self.criteria@[j], self.minimize)
                <= spec_rank(#[trigger] self.criteria@[i], self.minimize)
    }

    /// Mid-step invariants: the complexes partition a population of the
    /// right shape, each complex is sorted best-first, and some complex's
    /// best still ranks at least as well as the last recorded best.
    pub open spec fn complexes_wf(&self) -> bool {
        &&& self.initialized
        &&& self.complexes@.len() == self.n_complexes
        &&& self.complex_objs@.len() == self.n_complexes
        &&& forall|c: int|
            0 <= c < self.n_complexes ==> (#[trigger] self.complexes@[c])@.len()
                == self.n_per_complex
        &&& forall|c: int|
            0 <= c < self.n_complexes ==> rows_wf(
                (#[trigger] self.complexes@[c])@,
                self.complex_objs@[c]@,
                self.model.lower@,
                self.model.upper@,
                self.model.n_params as int,
            )
        &&& forall|c: int|
            0 <= c < self.n_complexes ==> sorted_by_rank(
                (#[trigger] self.complex_objs@[c])@,
                self.obj_idx as int,
                self.minimize,
            )
        &&& exists|c: int|
            0 <= c < self.n_complexes && spec_rank(
                #[trigger] self.complex_objs@[c]@[0]@[self.obj_idx as int],
                self.minimize,
            ) <= spec_rank(self.criteria@.last(), self.minimize)
    }

    /// Mid-step invariants together with the loop counters in range.
    pub open spec fn evo_base(&self) -> bool {
        &&& self.complexes_wf()
        &&& self.igs < self.n_complexes
        &&& self.estep < self.n_evolution_steps
    }

    /// The simplex positions are distinct, sorted, include position 0 and
    /// stay within the complex.
    pub open spec fn sidx_wf(&self) -> bool {
        &&& self.sidx@.len() == self.n_simplex
        &&& strictly_inc(self.sidx@)
        &&& self.sidx@[0] == 0
        &&& forall|q: int| 0 <= q < self.sidx@.len() ==> #[trigger] self.sidx@[q] < self.n_per_complex
    }

    /// Mid-step invariants including the simplex positions.
    pub open spec fn evo_wf(&self) -> bool {
        self.evo_base() && self.sidx_wf()
    }

    /// Completed evolution rounds of the running step.
    pub open spec fn rounds_done(&self) -> int {
        self.igs * self.n_evolution_steps + self.estep
    }

    /// Evaluations already spent on the evolution round in progress: one
    /// after the reflection was scored, two after the contraction was.
    pub open spec fn round_stage(&self) -> int {
        match self.phase {
            Phase::ContractCand => 1,
            Phase::EvalObj2 => 1,
            Phase::UniformCand3 => 2,
            Phase::EvalObj3 => 2,
            _ => 0,
        }
    }

    /// Mid-step evaluation accounting: every completed round cost between
    /// one and three evaluations, plus what the round in progress has
    /// already spent (the count saturates at the usize maximum).
    pub open spec fn budget_ok(&self) -> bool {
        &&& self.n_calls <= self.step_start_calls + 3 * self.rounds_done() + self.round_stage()
        &&& (self.n_calls >= self.step_start_calls + self.rounds_done() + self.round_stage()
            || self.n_calls == usize::MAX)
    }

    /// The stage-zero accounting a fresh round starts from.
    pub open spec fn round_start_budget(&self) -> bool {
        &&& self.n_calls <= self.step_start_calls + 3 * self.rounds_done()
        &&& (self.n_calls >= self.step_start_calls + self.rounds_done() || self.n_calls
            == usize::MAX)
    }

    /// After the last round: the whole step spent between
    /// `n_complexes * n_evolution_steps` and three times that many
    /// evaluations.
    pub open spec fn step_budget_ok(&self) -> bool {
        &&& self.n_calls <= self.step_start_calls + 3 * (self.n_complexes
            * self.n_evolution_steps)
        &&& (self.n_calls >= self.step_start_calls + self.n_complexes * self.n_evolution_steps
            || self.n_calls == usize::MAX)
    }

    /// Phase-specific invariants.
    pub open spec fn phase_wf(&self) -> bool {
        match self.phase {
            Phase::Idle => true,
            Phase::InitCandidates => true,
            Phase::InitObjectives => true,
            Phase::ReflectCand => self.evo_wf() && self.budget_ok(),
            Phase::UniformCand1 => self.evo_wf() && self.budget_ok(),
            Phase::ContractCand => self.evo_wf() && self.budget_ok(),
            Phase::UniformCand3 => self.evo_wf() && self.budget_ok(),
            Phase::EvalObj1 => self.evo_wf() && self.cand_wf() && self.budget_ok(),
            Phase::EvalObj2 => self.evo_wf() && self.cand_wf() && self.budget_ok(),
            Phase::EvalObj3 => self.evo_wf() && self.cand_wf() && self.budget_ok(),
            Phase::GnrngScalar => self.initialized && self.step_budget_ok(),
            Phase::CriteriaScalar => self.initialized && self.step_budget_ok(),
            Phase::SimSeries => self.initialized,
        }
    }

    /// The candidate out for evaluation has the right shape and sits within
    /// the bounds box.
    pub open spec fn cand_wf(&self) -> bool {
        &&& self.cand@.len() == self.model.n_params
        &&& row_in_box(self.model.lower@, self.model.upper@, self.cand@)
    }

    /// The phase-independent part of the invariant: configuration,
    /// population shape and bounds, population sorted best-first, monotone
    /// criteria, and the stored best linked to the sorted population.
    pub open spec fn base_wf(&self) -> bool {
        &&& self.cfg_wf()
        &&& self.population@.len() == self.n_pop
        &&& rows_wf(
            self.population@,
            self.objectives@,
            self.model.lower@,
            self.model.upper@,
            self.model.n_params as int,
        )
        &&& sorted_by_rank(self.objectives@, self.obj_idx as int, self.minimize)
        &&& self.criteria_monotone()
        &&& self.best@.len() == self.model.n_params
        &&& (self.initialized ==> self.criteria@.len() >= 1 && self.criteria@.last()
            == self.objectives@[0]@[self.obj_idx as int])
    }

    /// The engine's invariant.
    pub open spec fn wf(&self) -> bool {
        self.base_wf() && self.phase_wf()
    }

    /// Builds an optimizer for the named models: resolves them, derives the
    /// population sizes from the composed parameter count, seeds the random
    /// stream, and allocates a midpoint population with sentinel objective
    /// rows (worst possible in every column). The optimizer starts
    /// uninitialised and not done.
    pub fn new(
        climate_model: &str,
        snow_model: Option<&str>,
        objective: Objective,
        n_complexes: usize,
        k_stop: usize,
        p_convergence_threshold: u64,
        geometric_range_threshold: u64,
        max_evaluations: usize,
        seed: u64,
    ) -> (r: Result<Sce, Error>)
        requires
            1 <= n_complexes <= 100_000,
            1 <= k_stop,
            max_evaluations <= 1_000_000_000,
        ensures
            snow_model matches Some(s) ==> s@ != "cemaneige"@ ==> (r matches Err(e) && e matches
                Error::UnknownModel(n) && n@ == s@),
            snow_model matches Some(s) ==> s@ == "cemaneige"@ && climate_model@ != "gr4j"@ ==> (
            r matches Err(e) && e matches Error::UnknownModel(n) && n@ == climate_model@),
            snow_model is None && climate_model@ != "gr4j"@ ==> (r matches Err(e) && e matches
                Error::UnknownModel(n) && n@ == climate_model@),
            r matches Ok(sce) ==> {
                &&& sce.wf()
                &&& !sce.initialized
                &&& !sce.done
                &&& sce.n_calls == 0
                &&& sce.phase == Phase::Idle
                &&& sce.stream.seed == seed
                &&& sce.stream.index == 0
                &&& sce.objective == objective
                &&& sce.n_complexes == n_complexes
                &&& sce.k_stop == k_stop
                &&& sce.p_convergence_threshold == p_convergence_threshold
                &&& sce.geometric_range_threshold == geometric_range_threshold
                &&& sce.max_evaluations == max_evaluations
                &&& sce.n_per_complex == 2 * sce.model.n_params + 1
                &&& sce.n_simplex == sce.model.n_params + 1
                &&& sce.n_evolution_steps == 2 * sce.model.n_params + 1
                &&& sce.n_pop == n_complexes * sce.n_per_complex
                &&& sce.population@.len() == sce.n_pop
                &&& sce.objectives@.len() == sce.n_pop
                &&& sce.criteria@.len() == 0
                &&& forall|i: int|
                    0 <= i < sce.n_pop ==> (#[trigger] sce.population@[i])@
                        == sce.model.midpoints@
                &&& forall|i: int|
                    0 <= i < sce.n_pop ==> (#[trigger] sce.objectives@[i])@ == seq![
                        POS_INF,
                        NEG_INF,
                        NEG_INF,
                    ]
            },
            snow_model is None && climate_model@ == "gr4j"@ ==> (r matches Ok(sce)
                && sce.model.n_snow_params == 0 && sce.model.n_params == 4 && sce.model.lower@
                == gr4j_lower() && sce.model.upper@ == gr4j_upper() && sce.model.midpoints@
                == gr4j_midpoints() && sce.model.defaults@ == gr4j_midpoints()),
            snow_model matches Some(s) ==> s@ == "cemaneige"@ && climate_model@ == "gr4j"@ ==> (
            r matches Ok(sce) && sce.model.n_snow_params == 3 && sce.model.n_params == 7
                && sce.model.lower@ == cemaneige_lower() + gr4j_lower() && sce.model.upper@
                == cemaneige_upper() + gr4j_upper() && sce.model.midpoints@
                == cemaneige_midpoints() + gr4j_midpoints() && sce.model.defaults@
                == cemaneige_defaults() + gr4j_midpoints()),
    {
        let model = match resolve(climate_model, snow_model) {
            Ok(m) => m,
            Err(e) => {
                return Err(e);
            },
        };
        let (obj_idx, minimize) = objective.column();
        let n_params = model.n_params;
        let n_per_complex = 2 * n_params + 1;
        let n_simplex = n_params + 1;
        let n_evolution_steps = 2 * n_params + 1;
        proof {
            assert(n_complexes * n_per_complex <= 100_000 * 15) by (nonlinear_arith)
                requires
                    n_complexes <= 100_000 && n_per_complex <= 15,
            ;
            assert(n_complexes * n_per_complex >= 3) by (nonlinear_arith)
                requires
                    n_complexes >= 1 && n_per_complex >= 3,
            ;
        }
        let n_pop = n_complexes * n_per_complex;

        let mut population: Vec<Vec<u64>> = Vec::new();
        let mut i: usize = 0;
        while i < n_pop
            invariant
                0 <= i <= n_pop,
                population@.len() == i,
                forall|k: int|
                    0 <= k < i ==> (#[trigger] population@[k])@ == model.midpoints@,
            decreases n_pop - i,
        {
            let row = model.midpoints.clone();
            proof {
                assert(row@ =~= model.midpoints@);
            }
            population.push(row);
            i += 1;
        }

        let mut sentinel: Vec<u64> = Vec::new();
        sentinel.push(POS_INF);
        sentinel.push(NEG_INF);
        sentinel.push(NEG_INF);
        proof {
            assert(sentinel@ =~= seq![POS_INF, NEG_INF, NEG_INF]);
        }
        let mut objectives: Vec<Vec<u64>> = Vec::new();
        let mut i: usize = 0;
        while i < n_pop
            invariant
                0 <= i <= n_pop,
                objectives@.len() == i,
                sentinel@ == seq![POS_INF, NEG_INF, NEG_INF],
                forall|k: int|
                    0 <= k < i ==> (#[trigger] objectives@[k])@ == seq![POS_INF, NEG_INF, NEG_INF],
            decreases n_pop - i,
        {
            let row = sentinel.clone();
            proof {
                assert(row@ =~= sentinel@);
            }
            objectives.push(row);
            i += 1;
        }

        let best = model.midpoints.clone();
        proof {
            assert(best@ =~= model.midpoints@);
        }

        let sce = Sce {
            objective,
            obj_idx,
            minimize,
            k_stop,
            p_convergence_threshold,
            geometric_range_threshold,
            max_evaluations,
            model,
            n_complexes,
            n_per_complex,
            n_simplex,
            n_evolution_steps,
            n_pop,
            stream: SeedStream::new(seed),
            t: 0,
            initialized: false,
            done: false,
            n_calls: 0,
            step_start_calls: 0,
            population,
            objectives,
            criteria: Vec::new(),
            best,
            phase: Phase::Idle,
            complexes: Vec::new(),
            complex_objs: Vec::new(),
            igs: 0,
            estep: 0,
            sidx: Vec::new(),
            cand: Vec::new(),
            gnrng: 0,
        };
        proof {
            assert forall|i2: int| 0 <= i2 < sce.population@.len() implies row_in_box(
                sce.model.lower@,
                sce.model.upper@,
                (#[trigger] sce.population@[i2])@,
            ) by {
                assert(sce.population@[i2]@ == sce.model.midpoints@);
            }
            assert(sorted_by_rank(sce.objectives@, sce.obj_idx as int, sce.minimize)) by {
                assert forall|a: int, b: int|
                    0 <= a < b < sce.objectives@.len() implies spec_rank(
                    #[trigger] sce.objectives@[a]@[sce.obj_idx as int],
                    sce.minimize,
                ) <= spec_rank(#[trigger] sce.objectives@[b]@[sce.obj_idx as int], sce.minimize) by {
                    assert(sce.objectives@[a]@ == sce.objectives@[b]@);
                }
            }
        }
        Ok(sce)
    }

    /// Starts (or restarts) the initialization protocol: validates the
    /// forcing and the observations, then requests one uniform candidate
    /// row per population member beyond row 0 (which is pinned to the bound
    /// midpoints). The draws are consecutive words of the seeded stream, so
    /// the initial population is a pure function of seed and bounds.
    pub fn init(&mut self, data: &Data, observations: &Vec<u64>) -> (r: Result<Request, Error>)
        requires
            old(self).wf(),
        ensures
            final(self).wf(),
            !data_wf(data) ==> (r matches Err(e) && e matches Error::LengthMismatch(p, t2, e2, d)
                && p == data.precipitation@.len() && t2 == data.temperature@.len() && e2
                == data.pet@.len() && d == data.day_of_year@.len() && *final(self) == *old(self)),
            data_wf(data) && observations@.len() != data.precipitation@.len() ==> (r matches Err(e)
                && e matches Error::Metrics(m) && m == MetricsError::LengthMismatch(
                observations@.len() as usize,
                data.precipitation@.len() as usize,
            ) && *final(self) == *old(self)),
            data_wf(data) && observations@.len() == data.precipitation@.len() ==> (r matches Ok(
                req,
            ) && req matches Request::UniformRows { draws, lower, upper } && {
                &&& draws@.len() == (old(self).n_pop - 1) * old(self).model.n_params
                &&& forall|i: int|
                    0 <= i < draws@.len() ==> draws@[i] == chacha_stream(
                        old(self).stream.seed,
                        stream_pos(old(self).stream.index, i),
                    )
                &&& lower@ == old(self).model.lower@
                &&& upper@ == old(self).model.upper@
                &&& final(self).phase == Phase::InitCandidates
                &&& final(self).t == data.precipitation@.len()
                &&& final(self).stream.seed == old(self).stream.seed
                &&& final(self).stream.index == stream_pos(
                    old(self).stream.index,
                    (old(self).n_pop - 1) * old(self).model.n_params,
                )
                &&& final(self).model == old(self).model
                &&& final(self).n_pop == old(self).n_pop
                &&& final(self).n_calls == old(self).n_calls
                &&& final(self).done == old(self).done
            }),
    {
        if data.precipitation.len() != data.temperature.len() || data.precipitation.len()
            != data.pet.len() || data.precipitation.len() != data.day_of_year.len() {
            return Err(
                Error::LengthMismatch(
                    data.precipitation.len(),
                    data.temperature.len(),
                    data.pet.len(),
                    data.day_of_year.len(),
                ),
            );
        }
        if observations.len() != data.precipitation.len() {
            return Err(
                Error::Metrics(
                    MetricsError::LengthMismatch(observations.len(), data.precipitation.len()),
                ),
            );
        }
        self.t = data.precipitation.len();
        proof {
            assert((self.n_pop - 1) * self.model.n_params <= 1_500_000 * 7) by (nonlinear_arith)
                requires
                    self.n_pop <= 1_500_000 && self.model.n_params <= 7 && self.n_pop >= 1,
            ;
        }
        let n_draws: usize = (self.n_pop - 1) * self.model.n_params;
        let draws = self.stream.next_words(n_draws);
        let lower = self.model.lower.clone();
        let upper = self.model.upper.clone();
        proof {
            assert(lower@ =~= self.model.lower@);
            assert(upper@ =~= self.model.upper@);
        }
        self.phase = Phase::InitCandidates;
        Ok(Request::UniformRows { draws, lower, upper })
    }

    /// Absorbs the uniform candidate rows of the initial population: row 0
    /// is the bound midpoints, every further row is the corresponding reply
    /// row clamped componentwise into the bounds (a no-op for a caller
    /// computing the affine map in real arithmetic). Requests the objective
    /// rows of the whole population next.
    #[verifier::spinoff_prover]
    fn absorb_init_candidates(&mut self, rows: Vec<Vec<u64>>) -> (r: Result<Outcome, Error>)
        requires
            old(self).wf(),
            old(self).phase == Phase::InitCandidates,
        ensures
            final(self).wf(),
            !(rows@.len() == old(self).n_pop - 1 && forall|i: int|
                0 <= i < rows@.len() ==> (#[trigger] rows@[i])@.len() == old(self).model.n_params) ==> (r matches Err(e) && e matches Error::Protocol && *final(self)
                == *old(self)),
            rows@.len() == old(self).n_pop - 1 && (forall|i: int|
                0 <= i < rows@.len() ==> (#[trigger] rows@[i])@.len() == old(self).model.n_params) ==> (r matches Ok(o) && o matches Outcome::Pending(req)
                && req matches Request::EvaluateRows { rows: sent } && {
                &&& final(self).phase == Phase::InitObjectives
                &&& final(self).population@.len() == old(self).n_pop
                &&& final(self).population@[0]@ == old(self).model.midpoints@
                &&& forall|i: int, j: int|
                    0 <= i < rows@.len() && 0 <= j < old(self).model.n_params
                        ==> final(self).population@[i + 1]@[j] == spec_clamp(
                        old(self).model.lower@[j],
                        old(self).model.upper@[j],
                        #[trigger] rows@[i]@[j],
                    )
                &&& sent@.len() == final(self).population@.len()
                &&& forall|i: int|
                    0 <= i < sent@.len() ==> (#[trigger] sent@[i])@ == final(self).population@[i]@
                &&& final(self).objectives@ == old(self).objectives@
                &&& final(self).n_calls == old(self).n_calls
                &&& final(self).stream == old(self).stream
            }),
            final(self).criteria == old(self).criteria,
            final(self).done == old(self).done,
            final(self).initialized == old(self).initialized,
            final(self).stream == old(self).stream,
    {
        if rows.len() != self.n_pop - 1 {
            return Err(Error::Protocol);
        }
        let mut i: usize = 0;
        while i < rows.len()
            invariant
                0 <= i <= rows@.len(),
                forall|k: int| 0 <= k < i ==> (#[trigger] rows@[k])@.len() == old(self).model.n_params,
                *self == *old(self),
                old(self).wf(),
            decreases rows@.len() - i,
        {
            if rows[i].len() != self.model.n_params {
                return Err(Error::Protocol);
            }
            i += 1;
        }

        let mut new_pop: Vec<Vec<u64>> = Vec::new();
        let mid = self.model.midpoints.clone();
        proof {
            assert(mid@ =~= self.model.midpoints@);
        }
        new_pop.push(mid);
        let mut i: usize = 0;
        while i < rows.len()
            invariant
                0 <= i <= rows@.len(),
                rows@.len() == self.n_pop - 1,
                forall|k: int| 0 <= k < rows@.len() ==> (#[trigger] rows@[k])@.len()
                    == self.model.n_params,
                self.wf(),
                self.phase == Phase::InitCandidates,
                *self == *old(self),
                new_pop@.len() == i + 1,
                new_pop@[0]@ == self.model.midpoints@,
                forall|k: int, j: int|
                    0 <= k < i && 0 <= j < self.model.n_params ==> new_pop@[k + 1]@[j]
                        == spec_clamp(
                        self.model.lower@[j],
                        self.model.upper@[j],
                        #[trigger] rows@[k]@[j],
                    ),
                forall|k: int|
                    0 <= k < i + 1 ==> (#[trigger] new_pop@[k])@.len() == self.model.n_params,
                forall|k: int|
                    0 <= k < i + 1 ==> row_in_box(
                        self.model.lower@,
                        self.model.upper@,
                        (#[trigger] new_pop@[k])@,
                    ),
            decreases rows@.len() - i,
        {
            let mut row: Vec<u64> = Vec::new();
            let mut j: usize = 0;
            while j < self.model.n_params
                invariant
                    0 <= j <= self.model.n_params,
                    self.wf(),
                    *self == *old(self),
                    0 <= i < rows@.len(),
                    rows@[i as int]@.len() == self.model.n_params,
                    row@.len() == j,
                    forall|q: int|
                        0 <= q < j ==> row@[q] == spec_clamp(
                            self.model.lower@[q],
                            self.model.upper@[q],
                            #[trigger] rows@[i as int]@[q],
                        ),
                    forall|q: int|
                        0 <= q < j ==> in_interval(
                            self.model.lower@[q],
                            self.model.upper@[q],
                            #[trigger] row@[q],
                        ),
                decreases self.model.n_params - j,
            {
                let v = clamp_b(self.model.lower[j], self.model.upper[j], rows[i][j]);
                row.push(v);
                j += 1;
            }
            new_pop.push(row);
            i += 1;
        }

        self.population = new_pop;
        self.phase = Phase::InitObjectives;
        let sent = clone_matrix(&self.population);
        Ok(Outcome::Pending(Request::EvaluateRows { rows: sent }))
    }

    /// Absorbs the objective rows of the initial population, sorts the
    /// population best-first under the driving objective, and records the
    /// best value as the first convergence criterion.
    #[verifier::spinoff_prover]
    fn absorb_init_objectives(&mut self, objs: Vec<Vec<u64>>) -> (r: Result<Outcome, Error>)
        requires
            old(self).wf(),
            old(self).phase == Phase::InitObjectives,
        ensures
            final(self).wf(),
            !(objs@.len() == old(self).n_pop && forall|i: int|
                0 <= i < objs@.len() ==> (#[trigger] objs@[i])@.len() == 3) ==> (r matches Err(e)
                && e matches Error::Protocol && *final(self) == *old(self)),
            objs@.len() == old(self).n_pop && (forall|i: int|
                0 <= i < objs@.len() ==> (#[trigger] objs@[i])@.len() == 3) ==> (r matches Ok(o)
                && o matches Outcome::InitDone && {
                &&& final(self).initialized
                &&& final(self).phase == Phase::Idle
                &&& final(self).criteria@.len() == 1
                &&& final(self).criteria@[0] == final(self).objectives@[0]@[old(self).obj_idx as int]
                &&& final(self).best@ == final(self).population@[0]@
                &&& pairs_from(
                    final(self).population@,
                    final(self).objectives@,
                    old(self).population@,
                    objs@,
                )
                &&& exists|perm: Seq<int>| #[trigger] Self::init_sorted_pinned(
                    *final(self),
                    *old(self),
                    objs@,
                    perm,
                )
                &&& final(self).n_calls == old(self).n_calls
                &&& final(self).done == old(self).done
            }),
            final(self).stream == old(self).stream,
    {
        if objs.len() != self.n_pop {
            return Err(Error::Protocol);
        }
        let mut i: usize = 0;
        while i < objs.len()
            invariant
                0 <= i <= objs@.len(),
                forall|k: int| 0 <= k < i ==> (#[trigger] objs@[k])@.len() == 3,
                *self == *old(self),
                old(self).wf(),
            decreases objs@.len() - i,
        {
            if objs[i].len() != 3 {
                return Err(Error::Protocol);
            }
            i += 1;
        }

        self.objectives = objs;
        let ghost pre_rows = self.population@;
        let ghost pre_objs = self.objectives@;
        sort_by_objective(&mut self.population, &mut self.objectives, self.obj_idx, self.minimize);
        proof {
            lemma_pairs_shapes(
                self.population@,
                self.objectives@,
                pre_rows,
                pre_objs,
                self.model.lower@,
                self.model.upper@,
                self.model.n_params as int,
            );
        }
        let ghost sperm: Seq<int> = choose|perm: Seq<int>|
            (#[trigger] is_sort_permutation(perm, pre_rows.len() as int) && (forall|k: int|
                0 <= k < pre_rows.len() ==> (#[trigger] self.population@[k])@ == pre_rows[perm[k]]@
                    && self.objectives@[k]@ == pre_objs[perm[k]]@) && (forall|a: int, b: int|
                #![trigger perm[a], perm[b]]
                0 <= a < b < pre_rows.len() && spec_rank(
                    self.objectives@[a]@[self.obj_idx as int],
                    self.minimize,
                ) == spec_rank(self.objectives@[b]@[self.obj_idx as int], self.minimize) ==> perm[a]
                    < perm[b]));
        proof {
            assert(is_sort_permutation(sperm, old(self).n_pop as int));
            assert forall|k: int| 0 <= k < old(self).n_pop implies (#[trigger] self.population@[k])@
                == old(self).population@[sperm[k]]@ && self.objectives@[k]@ == objs@[sperm[k]]@ by {
                assert(self.population@[k]@ == pre_rows[sperm[k]]@);
                assert(self.objectives@[k]@ == pre_objs[sperm[k]]@);
            }
        }
        let best_val = self.objectives[0][self.obj_idx];
        let mut criteria: Vec<u64> = Vec::new();
        criteria.push(best_val);
        self.criteria = criteria;
        let b = self.population[0].clone();
        proof {
            assert(b@ =~= self.population@[0]@);
        }
        self.best = b;
        self.initialized = true;
        self.phase = Phase::Idle;
        proof {
            assert forall|k: int| 0 <= k < old(self).n_pop implies (#[trigger] self.population@[k])@
                == old(self).population@[sperm[k]]@ && self.objectives@[k]@ == objs@[sperm[k]]@ by {}
            assert(Self::init_sorted_pinned(*self, *old(self), objs@, sperm));
            assert(exists|perm: Seq<int>| #[trigger] Self::init_sorted_pinned(
                *self,
                *old(self),
                objs@,
                perm,
            ));
        }
        Ok(Outcome::InitDone)
    }

    /// Chooses the simplex for the current evolution round and requests its
    /// reflection. The simplex rows are the complex's members at the chosen
    /// positions, worst last.
    #[verifier::spinoff_prover]
    fn begin_evolution(&mut self) -> (r: Request)
        requires
            old(self).base_wf(),
            old(self).evo_base(),
            old(self).round_start_budget(),
        ensures
            final(self).wf(),
            final(self).phase == Phase::ReflectCand,
            r matches Request::Reflect { simplex } && simplex@.len() == final(self).n_simplex
                && forall|q: int|
                0 <= q < simplex@.len() ==> (#[trigger] simplex@[q])@ == final(self).complexes@[final(self).igs as int]@[final(self).sidx@[q] as int]@,
            final(self).complexes == old(self).complexes,
            final(self).complex_objs == old(self).complex_objs,
            final(self).population == old(self).population,
            final(self).objectives == old(self).objectives,
            final(self).criteria == old(self).criteria,
            final(self).n_calls == old(self).n_calls,
            final(self).done == old(self).done,
            final(self).best == old(self).best,
            final(self).igs == old(self).igs,
            final(self).estep == old(self).estep,
            final(self).step_start_calls == old(self).step_start_calls,
            final(self).stream.seed == old(self).stream.seed,
            ({
                let p = crate::tri::picks(
                    old(self).stream.seed,
                    old(self).stream.index,
                    old(self).n_per_complex as int,
                    seq![0usize],
                    old(self).n_simplex - 1,
                );
                &&& final(self).stream.index == p.1
                &&& (forall|v: usize| final(self).sidx@.contains(v) <==> p.0.contains(v))
            }),
    {
        let sidx = crate::tri::select_simplex_indices(
            self.n_per_complex,
            self.n_simplex,
            &mut self.stream,
        );
        self.sidx = sidx;
        let mut simplex: Vec<Vec<u64>> = Vec::new();
        let mut q: usize = 0;
        while q < self.n_simplex
            invariant
                0 <= q <= self.n_simplex,
                self.base_wf(),
                self.evo_base(),
                self.sidx_wf(),
                simplex@.len() == q,
                forall|k: int|
                    0 <= k < q ==> (#[trigger] simplex@[k])@ == self.complexes@[self.igs as int]@[self.sidx@[k] as int]@,
                *self == old(self).spec_with(self.sidx, self.stream),
            decreases self.n_simplex - q,
        {
            let pos = self.sidx[q];
            let row = self.complexes[self.igs][pos].clone();
            proof {
                assert(row@ =~= self.complexes@[self.igs as int]@[pos as int]@);
            }
            simplex.push(row);
            q += 1;
        }
        let ghost gathered = *self;
        self.phase = Phase::ReflectCand;
        proof {
            lemma_complexes_wf_frame(gathered, *self);
            assert(self.base_wf());
            assert(self.sidx_wf());
            assert(self.phase_wf());
        }
        Request::Reflect { simplex }
    }

    /// `self` with the simplex positions and the stream cursor replaced
    /// (specification helper).
    pub open spec fn spec_with(self, sidx: Vec<usize>, stream: SeedStream) -> Sce {
        Sce { sidx, stream, ..self }
    }

    /// Partitions the sorted population into `n_complexes` complexes by
    /// interleaved selection: complex `c` takes rows `c`, `n_complexes + c`,
    /// and so on, so every complex spans the whole quality range. Each
    /// complex inherits the population's sort order.
    #[verifier::spinoff_prover]
    #[verifier::rlimit(60)]
    fn partition(&mut self)
        requires
            old(self).base_wf(),
            old(self).initialized,
        ensures
            final(self).base_wf(),
            final(self).evo_base(),
            final(self).igs == 0,
            final(self).estep == 0,
            final(self).complexes@.len() == old(self).n_complexes,
            partition_pinned(
                final(self).complexes@,
                final(self).complex_objs@,
                old(self).population@,
                old(self).objectives@,
                old(self).n_complexes as int,
                old(self).n_per_complex as int,
                old(self).n_complexes as int,
            ),
            final(self).population == old(self).population,
            final(self).objectives == old(self).objectives,
            final(self).criteria == old(self).criteria,
            final(self).n_calls == old(self).n_calls,
            final(self).step_start_calls == old(self).step_start_calls,
            final(self).done == old(self).done,
            final(self).best == old(self).best,
            final(self).stream == old(self).stream,
            final(self).phase == old(self).phase,
            final(self).model == old(self).model,
            final(self).t == old(self).t,
            final(self).initialized == old(self).initialized,
    {
        let k_c = self.n_complexes;
        let m_per = self.n_per_complex;
        let mut complexes: Vec<Vec<Vec<u64>>> = Vec::new();
        let mut complex_objs: Vec<Vec<Vec<u64>>> = Vec::new();
        let mut c: usize = 0;
        while c < k_c
            invariant
                0 <= c <= k_c,
                old(self).base_wf(),
                old(self).initialized,
                *self == *old(self),
                k_c == self.n_complexes,
                m_per == self.n_per_complex,
                complexes@.len() == c,
                complex_objs@.len() == c,
                blocks_len(complexes@, complex_objs@, c as int, m_per as int),
                partition_pinned(
                    complexes@,
                    complex_objs@,
                    self.population@,
                    self.objectives@,
                    c as int,
                    m_per as int,
                    k_c as int,
                ),
            decreases k_c - c,
        {
            let mut rows: Vec<Vec<u64>> = Vec::new();
            let mut objs: Vec<Vec<u64>> = Vec::new();
            let mut j: usize = 0;
            while j < m_per
                invariant
                    0 <= j <= m_per,
                    0 <= c < k_c,
                    old(self).base_wf(),
                old(self).initialized,
                    *self == *old(self),
                    k_c == self.n_complexes,
                    m_per == self.n_per_complex,
                    rows@.len() == j,
                    objs@.len() == j,
                    slice_pinned(rows@, objs@, self.population@, self.objectives@, c as int, k_c as int, j as int),
                decreases m_per - j,
            {
                proof {
                    assert(j * k_c + c < self.n_pop) by (nonlinear_arith)
                        requires
                            0 <= j < m_per && 0 <= c < k_c && self.n_pop == k_c * m_per,
                    ;
                    assert(j * k_c + c <= (m_per - 1) * k_c + (k_c - 1)) by (nonlinear_arith)
                        requires
                            0 <= j < m_per && 0 <= c < k_c,
                    ;
                }
                let idx = j * k_c + c;
                let prow = self.population[idx].clone();
                let orow = self.objectives[idx].clone();
                proof {
                    assert(prow@ =~= self.population@[idx as int]@);
                    assert(orow@ =~= self.objectives@[idx as int]@);
                }
                let ghost pre_rows_s = rows@;
                let ghost pre_objs_s = objs@;
                rows.push(prow);
                objs.push(orow);
                proof {
                    assert(slice_pinned(
                        rows@,
                        objs@,
                        self.population@,
                        self.objectives@,
                        c as int,
                        k_c as int,
                        j + 1,
                    )) by {
                        assert forall|jj: int|
                            0 <= jj < j + 1 implies (#[trigger] rows@[jj])@ == self.population@[jj
                            * k_c + c]@ && objs@[jj]@ == self.objectives@[jj * k_c + c]@ by {
                            if jj < j {
                                assert(rows@[jj] == pre_rows_s[jj]);
                                assert(objs@[jj] == pre_objs_s[jj]);
                                assert(pre_rows_s[jj]@ == self.population@[jj * k_c + c]@);
                                assert(pre_objs_s[jj]@ == self.objectives@[jj * k_c + c]@);
                            } else {
                                assert(rows@[jj]@ == prow@);
                                assert(objs@[jj]@ == orow@);
                            }
                        }
                    }
                }
                j += 1;
            }
            let ghost pre_cx = complexes@;
            let ghost pre_cf = complex_objs@;
            let ghost rows_snap = rows@;
            let ghost objs_snap = objs@;
            complexes.push(rows);
            complex_objs.push(objs);
            proof {
                assert(blocks_len(complexes@, complex_objs@, c + 1, m_per as int)) by {
                    assert forall|cc: int|
                        0 <= cc < c + 1 implies (#[trigger] complexes@[cc])@.len() == m_per
                            && complex_objs@[cc]@.len() == m_per by {
                        if cc == c {
                            assert(complexes@[cc]@ == rows_snap);
                            assert(complex_objs@[cc]@ == objs_snap);
                        } else {
                            assert(complexes@[cc] == pre_cx[cc]);
                            assert(complex_objs@[cc] == pre_cf[cc]);
                        }
                    }
                }
                assert(partition_pinned(
                    complexes@,
                    complex_objs@,
                    self.population@,
                    self.objectives@,
                    c + 1,
                    m_per as int,
                    k_c as int,
                )) by {
                assert forall|cc: int, j: int|
                    0 <= cc < c + 1 && 0 <= j < m_per implies (#[trigger] complexes@[cc]@[j])@
                        == self.population@[j * k_c + cc]@ && complex_objs@[cc]@[j]@
                        == self.objectives@[j * k_c + cc]@ by {
                    if cc == c {
                        assert(complexes@[cc]@[j] == rows_snap[j]);
                        assert(complex_objs@[cc]@[j] == objs_snap[j]);
                        assert(slice_pinned(
                            rows_snap,
                            objs_snap,
                            self.population@,
                            self.objectives@,
                            c as int,
                            k_c as int,
                            m_per as int,
                        ));
                        assert(rows_snap[j]@ == self.population@[j * k_c + cc]@);
                        assert(objs_snap[j]@ == self.objectives@[j * k_c + cc]@);
                    } else {
                        assert(complexes@[cc] == pre_cx[cc]);
                        assert(complex_objs@[cc] == pre_cf[cc]);
                        assert(pre_cx[cc]@[j]@ == self.population@[j * k_c + cc]@);
                        assert(pre_cf[cc]@[j]@ == self.objectives@[j * k_c + cc]@);
                    }
                }
                }
            }
            c += 1;
        }
        self.complexes = complexes;
        self.complex_objs = complex_objs;
        self.igs = 0;
        self.estep = 0;

        let ghost s = *self;
        proof {
            assert forall|cc: int| 0 <= cc < s.n_complexes implies rows_wf(
                (#[trigger] s.complexes@[cc])@,
                s.complex_objs@[cc]@,
                s.model.lower@,
                s.model.upper@,
                s.model.n_params as int,
            ) by {
                assert(s.complexes@[cc]@.len() == m_per);
                assert(s.complex_objs@[cc]@.len() == m_per);
                assert forall|j: int| 0 <= j < m_per implies (#[trigger] s.complexes@[cc]@[j])@.len()
                    == s.model.n_params && s.complex_objs@[cc]@[j]@.len() == 3 && row_in_box(
                    s.model.lower@,
                    s.model.upper@,
                    s.complexes@[cc]@[j]@,
                ) by {
                    assert(0 <= j * k_c + cc < s.n_pop) by (nonlinear_arith)
                        requires
                            0 <= j < m_per && 0 <= cc < k_c && s.n_pop == k_c * m_per,
                    ;
                    assert(s.complexes@[cc]@[j]@ == s.population@[j * k_c + cc]@);
                    assert(s.complex_objs@[cc]@[j]@ == s.objectives@[j * k_c + cc]@);
                    assert((s.population@[j * k_c + cc])@.len() == s.model.n_params);
                    assert((s.objectives@[j * k_c + cc])@.len() == 3);
                    assert(row_in_box(s.model.lower@, s.model.upper@, (s.population@[j * k_c + cc])@));
                }
                assert forall|j: int| 0 <= j < m_per implies (#[trigger] s.complex_objs@[cc]@[j])@.len()
                    == 3 by {
                    assert(0 <= j * k_c + cc < s.n_pop) by (nonlinear_arith)
                        requires
                            0 <= j < m_per && 0 <= cc < k_c && s.n_pop == k_c * m_per,
                    ;
                    assert(s.complexes@[cc]@[j]@ == s.population@[j * k_c + cc]@);
                    assert(s.complex_objs@[cc]@[j]@ == s.objectives@[j * k_c + cc]@);
                    assert((s.objectives@[j * k_c + cc])@.len() == 3);
                }
            }
            assert forall|cc: int| 0 <= cc < s.n_complexes implies sorted_by_rank(
                (#[trigger] s.complex_objs@[cc])@,
                s.obj_idx as int,
                s.minimize,
            ) by {
                assert(s.complexes@[cc]@.len() == m_per);
                assert(s.complex_objs@[cc]@.len() == m_per);
                assert forall|a: int, b: int|
                    0 <= a < b < s.complex_objs@[cc]@.len() implies spec_rank(
                    #[trigger] s.complex_objs@[cc]@[a]@[s.obj_idx as int],
                    s.minimize,
                ) <= spec_rank(#[trigger] s.complex_objs@[cc]@[b]@[s.obj_idx as int], s.minimize) by {
                    assert(a * k_c + cc < b * k_c + cc) by (nonlinear_arith)
                        requires
                            0 <= a < b && k_c >= 1,
                    ;
                    assert(0 <= a * k_c + cc < s.n_pop && 0 <= b * k_c + cc < s.n_pop)
                        by (nonlinear_arith)
                        requires
                            0 <= a < b < m_per && 0 <= cc < k_c && s.n_pop == k_c * m_per,
                    ;
                    assert(s.complexes@[cc]@[a]@ == s.population@[a * k_c + cc]@);
                    assert(s.complexes@[cc]@[b]@ == s.population@[b * k_c + cc]@);
                    assert(s.complex_objs@[cc]@[a]@ == s.objectives@[a * k_c + cc]@);
                    assert(s.complex_objs@[cc]@[b]@ == s.objectives@[b * k_c + cc]@);
                    assert(spec_rank(s.objectives@[a * k_c + cc]@[s.obj_idx as int], s.minimize)
                        <= spec_rank(s.objectives@[b * k_c + cc]@[s.obj_idx as int], s.minimize));
                }
            }
            assert(s.complexes@[0]@.len() == m_per);
            assert(0 * k_c + 0 == 0);
            assert(s.complexes@[0]@[0]@ == s.population@[0 * k_c + 0]@);
            assert(s.complex_objs@[0]@[0]@ == s.objectives@[0 * k_c + 0]@);
            assert(s.complex_objs@[0]@[0]@ == s.objectives@[0]@);
            assert(spec_rank(s.complex_objs@[0]@[0]@[s.obj_idx as int], s.minimize) <= spec_rank(
                s.criteria@.last(),
                s.minimize,
            ));
        }
    }

    /// Starts one shuffled-complex step. Before any work the population is
    /// partitioned into `n_complexes` complexes by interleaved selection:
    /// complex `c` takes sorted rows `c`, `n_complexes + c`,
    /// `2 n_complexes + c`, and so on, so every complex spans the quality
    /// range. A converged optimizer skips straight to requesting the
    /// simulation for the stored best parameters and advances nothing.
    #[verifier::spinoff_prover]
    pub fn step(&mut self) -> (r: Result<Request, Error>)
        requires
            old(self).wf(),
        ensures
            final(self).wf(),
            !old(self).initialized ==> (r matches Err(e) && e matches Error::Uninitialized
                && *final(self) == *old(self)),
            old(self).initialized && old(self).phase != Phase::Idle ==> (r matches Err(e)
                && e matches Error::Protocol && *final(self) == *old(self)),
            old(self).initialized && old(self).phase == Phase::Idle && old(self).done ==> (
            r matches Ok(req) && req matches Request::Simulate { params } && params@ == old(self).best@ && final(self).phase == Phase::SimSeries && final(self).population == old(self).population && final(self).objectives == old(self).objectives && final(self).criteria
                == old(self).criteria && final(self).n_calls == old(self).n_calls && final(self).done == old(self).done && final(self).best == old(self).best && final(self).stream
                == old(self).stream),
            old(self).initialized && old(self).phase == Phase::Idle && !old(self).done ==> (
            r matches Ok(req) && req matches Request::Reflect { simplex } && {
                &&& final(self).phase == Phase::ReflectCand
                &&& final(self).igs == 0
                &&& final(self).estep == 0
                &&& final(self).complexes@.len() == old(self).n_complexes
                &&& partition_pinned(
                    final(self).complexes@,
                    final(self).complex_objs@,
                    old(self).population@,
                    old(self).objectives@,
                    old(self).n_complexes as int,
                    old(self).n_per_complex as int,
                    old(self).n_complexes as int,
                )
                &&& simplex@.len() == old(self).n_simplex
                &&& forall|q: int|
                    0 <= q < simplex@.len() ==> (#[trigger] simplex@[q])@ == final(self).complexes@[0]@[final(self).sidx@[q] as int]@
                &&& ({
                    let p = crate::tri::picks(
                        old(self).stream.seed,
                        old(self).stream.index,
                        old(self).n_per_complex as int,
                        seq![0usize],
                        old(self).n_simplex - 1,
                    );
                    &&& final(self).stream.index == p.1
                    &&& (forall|v: usize| final(self).sidx@.contains(v) <==> p.0.contains(v))
                })
                &&& final(self).population == old(self).population
                &&& final(self).objectives == old(self).objectives
                &&& final(self).criteria == old(self).criteria
                &&& final(self).n_calls == old(self).n_calls
                &&& final(self).done == old(self).done
            }),
    {
        if !self.initialized {
            return Err(Error::Uninitialized);
        }
        match self.phase {
            Phase::Idle => {},
            _ => {
                return Err(Error::Protocol);
            },
        }
        if self.done {
            let params = self.best.clone();
            proof {
                assert(params@ =~= self.best@);
            }
            self.phase = Phase::SimSeries;
            return Ok(Request::Simulate { params });
        }

        self.partition();
        let ghost parted = *self;
        self.step_start_calls = self.n_calls;
        proof {
            lemma_complexes_wf_frame(parted, *self);
            assert(self.base_wf());
            assert(self.igs == 0 && self.estep == 0);
            let gi = self.igs;
            let ge = self.n_evolution_steps;
            let gs = self.estep;
            assert(gi * ge + gs == 0) by (nonlinear_arith)
                requires
                    gi == 0 && gs == 0,
            ;
            assert(self.rounds_done() == 0);
            assert(self.round_start_budget());
        }
        let ghost mid = *self;
        let req = self.begin_evolution();
        proof {
            assert(self.complexes == mid.complexes);
            assert(self.complex_objs == mid.complex_objs);
        }
        Ok(req)
    }

    /// A copy of the current simplex: the evolving complex's members at the
    /// chosen positions, worst last.
    fn gather_simplex(&self) -> (r: Vec<Vec<u64>>)
        requires
            self.base_wf(),
            self.complexes_wf(),
            self.igs < self.n_complexes,
            self.sidx_wf(),
        ensures
            r@.len() == self.n_simplex,
            forall|q: int|
                0 <= q < r@.len() ==> (#[trigger] r@[q])@ == self.complexes@[self.igs as int]@[self.sidx@[q] as int]@,
    {
        let mut simplex: Vec<Vec<u64>> = Vec::new();
        let mut q: usize = 0;
        while q < self.n_simplex
            invariant
                0 <= q <= self.n_simplex,
                self.base_wf(),
                self.complexes_wf(),
                self.igs < self.n_complexes,
                self.sidx_wf(),
                simplex@.len() == q,
                forall|k: int|
                    0 <= k < q ==> (#[trigger] simplex@[k])@ == self.complexes@[self.igs as int]@[self.sidx@[k] as int]@,
            decreases self.n_simplex - q,
        {
            let pos = self.sidx[q];
            let row = self.complexes[self.igs][pos].clone();
            proof {
                assert(row@ =~= self.complexes@[self.igs as int]@[pos as int]@);
            }
            simplex.push(row);
            q += 1;
        }
        simplex
    }

    /// Absorbs a reflection candidate. A candidate with every component
    /// inside the bounds goes out for evaluation as it stands; one with any
    /// component outside (NaN components count as outside) is discarded and
    /// a fresh uniform sample is requested in its place.
    fn absorb_reflection(&mut self, c: Vec<u64>) -> (r: Result<Outcome, Error>)
        requires
            old(self).wf(),
            old(self).phase == Phase::ReflectCand,
        ensures
            final(self).wf(),
            c@.len() != old(self).model.n_params ==> (r matches Err(e) && e matches Error::Protocol
                && *final(self) == *old(self)),
            c@.len() == old(self).model.n_params && row_in_box(
                old(self).model.lower@,
                old(self).model.upper@,
                c@,
            ) ==> (r matches Ok(o) && o matches Outcome::Pending(req2) && req2 matches
                Request::Evaluate { params } && params@ == c@ && final(self).phase
                == Phase::EvalObj1 && final(self).cand@ == c@ && final(self).stream == old(self).stream),
            c@.len() == old(self).model.n_params && !row_in_box(
                old(self).model.lower@,
                old(self).model.upper@,
                c@,
            ) ==> (r matches Ok(o) && o matches Outcome::Pending(req2) && req2 matches
                Request::UniformRow { draws, lower, upper } && draws@.len() == old(self).model.n_params && lower@ == old(self).model.lower@ && upper@ == old(self).model.upper@ && (forall|i: int|
                0 <= i < draws@.len() ==> draws@[i] == chacha_stream(
                    old(self).stream.seed,
                    stream_pos(old(self).stream.index, i),
                )) && final(self).stream.index == stream_pos(
                old(self).stream.index,
                old(self).model.n_params as int,
            ) && final(self).stream.seed == old(self).stream.seed && final(self).phase
                == Phase::UniformCand1),
            final(self).criteria == old(self).criteria,
            final(self).n_calls == old(self).n_calls,
            final(self).done == old(self).done,
            final(self).initialized == old(self).initialized,
    {
        if c.len() != self.model.n_params {
            return Err(Error::Protocol);
        }
        let mut inside = true;
        let mut j: usize = 0;
        while j < self.model.n_params
            invariant
                0 <= j <= self.model.n_params,
                old(self).wf(),
                *self == *old(self),
                c@.len() == self.model.n_params,
                inside == forall|q: int|
                    0 <= q < j ==> in_interval(
                        self.model.lower@[q],
                        self.model.upper@[q],
                        #[trigger] c@[q],
                    ),
            decreases self.model.n_params - j,
        {
            let ghost pre_inside = inside;
            let ok_lo = crate::scalar::le_b(self.model.lower[j], c[j]);
            let ok_hi = crate::scalar::le_b(c[j], self.model.upper[j]);
            if !(ok_lo && ok_hi) {
                inside = false;
            }
            proof {
                if pre_inside && ok_lo && ok_hi {
                    assert forall|q: int| 0 <= q < j + 1 implies in_interval(
                        self.model.lower@[q],
                        self.model.upper@[q],
                        #[trigger] c@[q],
                    ) by {}
                } else if pre_inside {
                    assert(!in_interval(
                        self.model.lower@[j as int],
                        self.model.upper@[j as int],
                        c@[j as int],
                    ));
                } else {
                    let q0 = choose|q: int|
                        !(0 <= q < j ==> in_interval(
                            self.model.lower@[q],
                            self.model.upper@[q],
                            #[trigger] c@[q],
                        ));
                    assert(!(0 <= q0 < j + 1 ==> in_interval(
                        self.model.lower@[q0],
                        self.model.upper@[q0],
                        c@[q0],
                    )));
                }
            }
            j += 1;
        }
        let ghost pre = *self;
        if inside {
            self.cand = c;
            self.phase = Phase::EvalObj1;
            let params = self.cand.clone();
            proof {
                assert(params@ =~= self.cand@);
                lemma_complexes_wf_frame(pre, *self);
                assert(row_in_box(self.model.lower@, self.model.upper@, self.cand@));
            }
            Ok(Outcome::Pending(Request::Evaluate { params }))
        } else {
            let n = self.model.n_params;
            let draws = self.stream.next_words(n);
            let lower = self.model.lower.clone();
            let upper = self.model.upper.clone();
            proof {
                assert(lower@ =~= self.model.lower@);
                assert(upper@ =~= self.model.upper@);
            }
            self.phase = Phase::UniformCand1;
            proof {
                lemma_complexes_wf_frame(pre, *self);
            }
            Ok(Outcome::Pending(Request::UniformRow { draws, lower, upper }))
        }
    }

    /// Absorbs a uniform candidate (for `third`, the last-resort sample;
    /// otherwise the replacement for an out-of-bounds reflection): each
    /// component is clamped into its bounds (a no-op for a caller computing
    /// the affine map in real arithmetic) and the result goes out for
    /// evaluation.
    fn absorb_uniform(&mut self, c: Vec<u64>, third: bool) -> (r: Result<Outcome, Error>)
        requires
            old(self).wf(),
            third ==> old(self).phase == Phase::UniformCand3,
            !third ==> old(self).phase == Phase::UniformCand1,
        ensures
            final(self).wf(),
            c@.len() != old(self).model.n_params ==> (r matches Err(e) && e matches Error::Protocol
                && *final(self) == *old(self)),
            c@.len() == old(self).model.n_params ==> (r matches Ok(o) && o matches
                Outcome::Pending(req2) && req2 matches Request::Evaluate { params } && params@
                == final(self).cand@ && final(self).cand@.len() == old(self).model.n_params && (
            forall|q: int|
                0 <= q < c@.len() ==> final(self).cand@[q] == spec_clamp(
                    old(self).model.lower@[q],
                    old(self).model.upper@[q],
                    #[trigger] c@[q],
                )) && (third ==> final(self).phase == Phase::EvalObj3) && (!third ==> final(self).phase == Phase::EvalObj1)),
            final(self).criteria == old(self).criteria,
            final(self).n_calls == old(self).n_calls,
            final(self).done == old(self).done,
            final(self).initialized == old(self).initialized,
    {
        if c.len() != self.model.n_params {
            return Err(Error::Protocol);
        }
        let ghost pre = *self;
        let mut row: Vec<u64> = Vec::new();
        let mut j: usize = 0;
        while j < self.model.n_params
            invariant
                0 <= j <= self.model.n_params,
                old(self).wf(),
                *self == *old(self),
                c@.len() == self.model.n_params,
                row@.len() == j,
                forall|q: int|
                    0 <= q < j ==> in_interval(
                        self.model.lower@[q],
                        self.model.upper@[q],
                        #[trigger] row@[q],
                    ),
                forall|q: int|
                    0 <= q < j ==> row@[q] == spec_clamp(
                        self.model.lower@[q],
                        self.model.upper@[q],
                        #[trigger] c@[q],
                    ),
            decreases self.model.n_params - j,
        {
            let v = clamp_b(self.model.lower[j], self.model.upper[j], c[j]);
            row.push(v);
            j += 1;
        }
        self.cand = row;
        self.phase = if third {
            Phase::EvalObj3
        } else {
            Phase::EvalObj1
        };
        let params = self.cand.clone();
        proof {
            assert(params@ =~= self.cand@);
            lemma_complexes_wf_frame(pre, *self);
        }
        Ok(Outcome::Pending(Request::Evaluate { params }))
    }

    /// Absorbs a contraction candidate: clamped into bounds and sent out
    /// for evaluation.
    fn absorb_contract(&mut self, c: Vec<u64>) -> (r: Result<Outcome, Error>)
        requires
            old(self).wf(),
            old(self).phase == Phase::ContractCand,
        ensures
            final(self).wf(),
            c@.len() != old(self).model.n_params ==> (r matches Err(e) && e matches Error::Protocol
                && *final(self) == *old(self)),
            c@.len() == old(self).model.n_params ==> (r matches Ok(o) && o matches
                Outcome::Pending(req2) && req2 matches Request::Evaluate { params } && params@
                == final(self).cand@ && final(self).cand@.len() == old(self).model.n_params && (
            forall|q: int|
                0 <= q < c@.len() ==> final(self).cand@[q] == spec_clamp(
                    old(self).model.lower@[q],
                    old(self).model.upper@[q],
                    #[trigger] c@[q],
                )) && final(self).phase == Phase::EvalObj2),
            final(self).criteria == old(self).criteria,
            final(self).n_calls == old(self).n_calls,
            final(self).done == old(self).done,
            final(self).initialized == old(self).initialized,
    {
        if c.len() != self.model.n_params {
            return Err(Error::Protocol);
        }
        let ghost pre = *self;
        let mut row: Vec<u64> = Vec::new();
        let mut j: usize = 0;
        while j < self.model.n_params
            invariant
                0 <= j <= self.model.n_params,
                old(self).wf(),
                *self == *old(self),
                c@.len() == self.model.n_params,
                row@.len() == j,
                forall|q: int|
                    0 <= q < j ==> in_interval(
                        self.model.lower@[q],
                        self.model.upper@[q],
                        #[trigger] row@[q],
                    ),
                forall|q: int|
                    0 <= q < j ==> row@[q] == spec_clamp(
                        self.model.lower@[q],
                        self.model.upper@[q],
                        #[trigger] c@[q],
                    ),
            decreases self.model.n_params - j,
        {
            let v = clamp_b(self.model.lower[j], self.model.upper[j], c[j]);
            row.push(v);
            j += 1;
        }
        self.cand = row;
        self.phase = Phase::EvalObj2;
        let params = self.cand.clone();
        proof {
            assert(params@ =~= self.cand@);
            lemma_complexes_wf_frame(pre, *self);
        }
        Ok(Outcome::Pending(Request::Evaluate { params }))
    }

    /// The evolving complex of `s` is `pre`'s complex with the accepted
    /// candidate written over the worst simplex slot, re-sorted by `perm`.
    pub open spec fn complex_replaced(s: Sce, pre: Sce, f: Seq<u64>, perm: Seq<int>) -> bool {
        &&& is_sort_permutation(perm, pre.n_per_complex as int)
        &&& forall|k: int|
            0 <= k < pre.n_per_complex ==> (#[trigger] s.complexes@[pre.igs as int]@[k])@
                == pre.replaced_row(perm[k]) && s.complex_objs@[pre.igs as int]@[k]@
                == pre.replaced_obj(f, perm[k])
    }

    /// Every complex but the evolving one is unchanged.
    pub open spec fn others_unchanged(s: Sce, pre: Sce) -> bool {
        forall|c: int|
            0 <= c < pre.n_complexes && c != pre.igs ==> s.complexes@[c] == (
            #[trigger] pre.complexes@[c]) && s.complex_objs@[c] == pre.complex_objs@[c]
    }

    /// The stored pairs are the candidate rows and their objective rows,
    /// re-sorted by `perm`.
    pub open spec fn init_sorted_pinned(s: Sce, pre: Sce, objs: Seq<Vec<u64>>, perm: Seq<int>) -> bool {
        &&& is_sort_permutation(perm, pre.n_pop as int)
        &&& forall|k: int|
            0 <= k < pre.n_pop ==> (#[trigger] s.population@[k])@ == pre.population@[perm[k]]@
                && s.objectives@[k]@ == objs[perm[k]]@
    }

    /// The observable state a finished or converged step leaves untouched.
    pub open spec fn step_done_frame(s: Sce, pre: Sce) -> bool {
        &&& s.population == pre.population
        &&& s.objectives == pre.objectives
        &&& s.criteria == pre.criteria
        &&& s.n_calls == pre.n_calls
        &&& s.done == pre.done
        &&& s.best == pre.best
        &&& s.stream == pre.stream
        &&& s.t == pre.t
        &&& s.model == pre.model
    }

    /// The replacement description transfers between state pairs that agree
    /// on the complexes and on the fields the description reads.
    #[verifier::spinoff_prover]
    proof fn lemma_replaced_transfer(s1: Sce, p1: Sce, s2: Sce, p2: Sce, f: Seq<u64>, perm: Seq<int>)
        requires
            Self::complex_replaced(s1, p1, f, perm),
            s2.complexes == s1.complexes,
            s2.complex_objs == s1.complex_objs,
            p2.complexes == p1.complexes,
            p2.complex_objs == p1.complex_objs,
            p2.igs == p1.igs,
            p2.sidx == p1.sidx,
            p2.n_simplex == p1.n_simplex,
            p2.n_per_complex == p1.n_per_complex,
            p2.cand == p1.cand,
        ensures
            Self::complex_replaced(s2, p2, f, perm),
    {
        assert forall|k: int| 0 <= k < p2.n_per_complex implies (#[trigger] s2.complexes@[p2.igs as int]@[k])@
            == p2.replaced_row(perm[k]) && s2.complex_objs@[p2.igs as int]@[k]@ == p2.replaced_obj(
            f,
            perm[k],
        ) by {
            assert(s1.complexes@[p1.igs as int]@[k]@ == p1.replaced_row(perm[k]));
            assert(s1.complex_objs@[p1.igs as int]@[k]@ == p1.replaced_obj(f, perm[k]));
            assert(p2.replaced_row(perm[k]) == p1.replaced_row(perm[k]));
            assert(p2.replaced_obj(f, perm[k]) == p1.replaced_obj(f, perm[k]));
        }
    }

    /// So does the untouched-complex frame.
    #[verifier::spinoff_prover]
    proof fn lemma_others_transfer(s1: Sce, p1: Sce, s2: Sce, p2: Sce)
        requires
            Self::others_unchanged(s1, p1),
            s2.complexes == s1.complexes,
            s2.complex_objs == s1.complex_objs,
            p2.complexes == p1.complexes,
            p2.complex_objs == p1.complex_objs,
            p2.igs == p1.igs,
            p2.n_complexes == p1.n_complexes,
        ensures
            Self::others_unchanged(s2, p2),
    {
        assert forall|c: int| 0 <= c < p2.n_complexes && c != p2.igs implies s2.complexes@[c] == (
        #[trigger] p2.complexes@[c]) && s2.complex_objs@[c] == p2.complex_objs@[c] by {
            assert(s1.complexes@[c] == p1.complexes@[c]);
            assert(s1.complex_objs@[c] == p1.complex_objs@[c]);
        }
    }

    /// The evolving complex's member `i` after the worst simplex slot takes
    /// the accepted candidate: the candidate at the worst position, the old
    /// member elsewhere.
    pub open spec fn replaced_row(self, i: int) -> Seq<u64> {
        if i == self.sidx@[self.n_simplex - 1] as int {
            self.cand@
        } else {
            self.complexes@[self.igs as int]@[i]@
        }
    }

    /// The matching objective row: `f` at the worst position, the old
    /// objective row elsewhere.
    pub open spec fn replaced_obj(self, f: Seq<u64>, i: int) -> Seq<u64> {
        if i == self.sidx@[self.n_simplex - 1] as int {
            f
        } else {
            self.complex_objs@[self.igs as int]@[i]@
        }
    }

    /// The competitive rank of the worst simplex member's driving
    /// objective (the member at the last simplex position).
    pub open spec fn worst_rank(self) -> u64 {
        spec_rank(
            self.complex_objs@[self.igs as int]@[self.sidx@[self.n_simplex - 1] as int]@[self.obj_idx as int],
            self.minimize,
        )
    }

    /// Replaces the worst simplex member of the evolving complex with the
    /// accepted candidate and its objective row, then re-sorts the complex
    /// best-first. The complex's previous best survives untouched (the
    /// worst simplex position is never position 0), so the complex's best
    /// never worsens.
    #[verifier::spinoff_prover]
    #[verifier::rlimit(100)]
    fn commit_candidate(&mut self, fobj: Vec<u64>)
        requires
            old(self).base_wf(),
            old(self).complexes_wf(),
            old(self).igs < old(self).n_complexes,
            old(self).sidx_wf(),
            old(self).cand_wf(),
            fobj@.len() == 3,
        ensures
            final(self).base_wf(),
            final(self).complexes_wf(),
            final(self).population == old(self).population,
            final(self).objectives == old(self).objectives,
            final(self).criteria == old(self).criteria,
            final(self).n_calls == old(self).n_calls,
            final(self).step_start_calls == old(self).step_start_calls,
            final(self).done == old(self).done,
            final(self).best == old(self).best,
            final(self).stream == old(self).stream,
            final(self).phase == old(self).phase,
            final(self).igs == old(self).igs,
            final(self).estep == old(self).estep,
            final(self).initialized == old(self).initialized,
            final(self).t == old(self).t,
            final(self).model == old(self).model,
            final(self).n_pop == old(self).n_pop,
            final(self).n_complexes == old(self).n_complexes,
            final(self).n_per_complex == old(self).n_per_complex,
            final(self).n_simplex == old(self).n_simplex,
            final(self).n_evolution_steps == old(self).n_evolution_steps,
            final(self).sidx == old(self).sidx,
            final(self).cand == old(self).cand,
            Self::others_unchanged(*final(self), *old(self)),
            exists|perm: Seq<int>| #[trigger] Self::complex_replaced(
                *final(self),
                *old(self),
                fobj@,
                perm,
            ),
    {
        let igs = self.igs;
        let pos = self.sidx[self.n_simplex - 1];
        proof {
            assert(self.sidx@[0] < self.sidx@[self.n_simplex - 1]);
            assert(pos >= 1);
            assert(self.complexes@[igs as int]@.len() == self.n_per_complex);
            assert(rows_wf(
                self.complexes@[igs as int]@,
                self.complex_objs@[igs as int]@,
                self.model.lower@,
                self.model.upper@,
                self.model.n_params as int,
            ));
        }
        let ghost old_cx = self.complexes@[igs as int]@;
        let ghost old_cf = self.complex_objs@[igs as int]@;
        let mut cx = self.complexes.remove(igs);
        let mut cf = self.complex_objs.remove(igs);
        let crow = self.cand.clone();
        proof {
            assert(crow@ =~= self.cand@);
        }
        cx.set(pos, crow);
        cf.set(pos, fobj);
        let ghost pre_cx = cx@;
        let ghost pre_cf = cf@;
        proof {
            assert(pre_cx[0] == old_cx[0]);
            assert(pre_cf[0] == old_cf[0]);
            assert forall|i: int| 0 <= i < pre_cx.len() implies (#[trigger] pre_cx[i])@.len()
                == self.model.n_params && pre_cf[i]@.len() == 3 && row_in_box(
                self.model.lower@,
                self.model.upper@,
                pre_cx[i]@,
            ) by {
                if i == pos {
                    assert(pre_cx[i]@ == self.cand@);
                    assert(pre_cf[i]@ == fobj@);
                } else {
                    assert(pre_cx[i] == old_cx[i]);
                    assert(pre_cf[i] == old_cf[i]);
                    assert(old_cx[i]@.len() == self.model.n_params);
                    assert(old_cf[i]@.len() == 3);
                    assert(row_in_box(self.model.lower@, self.model.upper@, old_cx[i]@));
                }
            }
        }
        sort_by_objective(&mut cx, &mut cf, self.obj_idx, self.minimize);
        proof {
            lemma_pairs_shapes(
                cx@,
                cf@,
                pre_cx,
                pre_cf,
                self.model.lower@,
                self.model.upper@,
                self.model.n_params as int,
            );
            // The previous best pair is still present; the sorted front
            // ranks at least as well.
            assert(pair_appears(pre_cx, pre_cf, cx@, cf@, 0));
            let i0 = choose|j: int|
                0 <= j < cx@.len() && pre_cx[0]@ == #[trigger] cx@[j]@ && pre_cf[0]@ == cf@[j]@;
            assert(spec_rank(cf@[0]@[self.obj_idx as int], self.minimize) <= spec_rank(
                old_cf[0]@[self.obj_idx as int],
                self.minimize,
            ));
        }
        let ghost new_cx = cx@;
        let ghost new_cf = cf@;
        self.complexes.insert(igs, cx);
        self.complex_objs.insert(igs, cf);
        proof {
            let s = *self;
            assert(s.complexes@.len() == s.n_complexes);
            assert(s.complex_objs@.len() == s.n_complexes);
            assert forall|c: int| 0 <= c < s.n_complexes && c != igs implies s.complexes@[c]
                == old(self).complexes@[c] && s.complex_objs@[c] == old(self).complex_objs@[c] by {
                if c < igs {
                } else {
                    assert(s.complexes@[c] == old(self).complexes@.remove(igs as int)[c - 1]);
                    assert(old(self).complexes@.remove(igs as int)[c - 1] == old(self).complexes@[c]);
                    assert(s.complex_objs@[c] == old(self).complex_objs@.remove(igs as int)[c - 1]);
                    assert(old(self).complex_objs@.remove(igs as int)[c - 1] == old(self).complex_objs@[c]);
                }
            }
            assert(s.complexes@[igs as int]@ == new_cx);
            assert(s.complex_objs@[igs as int]@ == new_cf);
            assert forall|c: int| 0 <= c < s.n_complexes implies (#[trigger] s.complexes@[c])@.len()
                == s.n_per_complex && rows_wf(
                s.complexes@[c]@,
                s.complex_objs@[c]@,
                s.model.lower@,
                s.model.upper@,
                s.model.n_params as int,
            ) && sorted_by_rank(s.complex_objs@[c]@, s.obj_idx as int, s.minimize) by {
                if c == igs {
                    assert(new_cx.len() == pre_cx.len());
                } else {
                    assert(s.complexes@[c] == old(self).complexes@[c]);
                    assert(old(self).complexes@[c]@.len() == s.n_per_complex);
                    assert(rows_wf(
                        old(self).complexes@[c]@,
                        old(self).complex_objs@[c]@,
                        s.model.lower@,
                        s.model.upper@,
                        s.model.n_params as int,
                    ));
                    assert(sorted_by_rank(old(self).complex_objs@[c]@, s.obj_idx as int, s.minimize));
                }
            }
            // The witness complex still carries a best at least as good as
            // the last recorded criterion.
            let c0 = choose|c: int|
                0 <= c < old(self).n_complexes && spec_rank(
                    #[trigger] old(self).complex_objs@[c]@[0]@[old(self).obj_idx as int],
                    old(self).minimize,
                ) <= spec_rank(old(self).criteria@.last(), old(self).minimize);
            if c0 == igs {
                assert(old(self).complex_objs@[c0]@ == old_cf);
                assert(spec_rank(s.complex_objs@[igs as int]@[0]@[s.obj_idx as int], s.minimize)
                    <= spec_rank(s.criteria@.last(), s.minimize));
            } else {
                assert(s.complex_objs@[c0] == old(self).complex_objs@[c0]);
                assert(spec_rank(s.complex_objs@[c0]@[0]@[s.obj_idx as int], s.minimize)
                    <= spec_rank(s.criteria@.last(), s.minimize));
            }
            // The sort's permutation, composed with the single-slot
            // replacement, describes the new complex exactly.
            let m_len = pre_cx.len();
            let sperm = choose|perm: Seq<int>|
                (#[trigger] is_sort_permutation(perm, m_len as int) && (forall|k: int|
                    0 <= k < m_len ==> (#[trigger] new_cx[k])@ == pre_cx[perm[k]]@ && new_cf[k]@
                        == pre_cf[perm[k]]@) && (forall|a: int, b: int|
                    #![trigger perm[a], perm[b]]
                    0 <= a < b < m_len && spec_rank(
                        new_cf[a]@[self.obj_idx as int],
                        self.minimize,
                    ) == spec_rank(new_cf[b]@[self.obj_idx as int], self.minimize) ==> perm[a]
                        < perm[b]));
            assert(is_sort_permutation(sperm, old(self).n_per_complex as int));
            assert forall|k: int| 0 <= k < old(self).n_per_complex implies (#[trigger] self.complexes@[old(self).igs as int]@[k])@
                == old(self).replaced_row(sperm[k]) && self.complex_objs@[old(self).igs as int]@[k]@
                == old(self).replaced_obj(fobj@, sperm[k]) by {
                assert(self.complexes@[igs as int]@ == new_cx);
                assert(self.complex_objs@[igs as int]@ == new_cf);
                assert(self.complexes@[igs as int]@[k] == new_cx[k]);
                assert(self.complex_objs@[igs as int]@[k] == new_cf[k]);
                assert(new_cx[k]@ == pre_cx[sperm[k]]@);
                assert(new_cf[k]@ == pre_cf[sperm[k]]@);
                let pidx = sperm[k];
                if pidx == pos {
                    assert(pre_cx[pidx]@ == old(self).cand@);
                    assert(pre_cf[pidx]@ == fobj@);
                } else {
                    assert(pre_cx[pidx] == old_cx[pidx]);
                    assert(pre_cf[pidx] == old_cf[pidx]);
                }
            }
            assert(Self::complex_replaced(*self, *old(self), fobj@, sperm));
            assert(exists|perm: Seq<int>| #[trigger] Self::complex_replaced(
                *self,
                *old(self),
                fobj@,
                perm,
            ));
            assert(Self::others_unchanged(*self, *old(self)));
        }
    }

    /// Shuffles the evolved complexes back into one population, sorts it
    /// best-first, records the new best objective value as the next
    /// convergence criterion, and requests the normalized geometric range.
    /// Every complex's best survives the shuffle, so the recorded best
    /// never worsens.
    #[verifier::spinoff_prover]
    fn finish_complexes(&mut self) -> (req: Request)
        requires
            old(self).base_wf(),
            old(self).complexes_wf(),
            old(self).step_budget_ok(),
        ensures
            final(self).wf(),
            final(self).phase == Phase::GnrngScalar,
            final(self).step_start_calls == old(self).step_start_calls,
            final(self).criteria@ == old(self).criteria@.push(
                final(self).objectives@[0]@[old(self).obj_idx as int],
            ),
            final(self).n_calls == old(self).n_calls,
            final(self).done == old(self).done,
            final(self).initialized == old(self).initialized,
            final(self).stream == old(self).stream,
            final(self).best@ == final(self).population@[0]@,
            final(self).complexes == old(self).complexes,
            final(self).complex_objs == old(self).complex_objs,
            exists|perm: Seq<int>|
                (#[trigger] is_sort_permutation(perm, old(self).n_pop as int) && (forall|k: int|
                    0 <= k < old(self).n_pop ==> (#[trigger] final(self).population@[k])@ == old(
                        self,
                    ).complexes@[perm[k] / (old(self).n_per_complex as int)]@[perm[k] % (old(
                        self,
                    ).n_per_complex as int)]@ && final(self).objectives@[k]@ == old(
                        self,
                    ).complex_objs@[perm[k] / (old(self).n_per_complex as int)]@[perm[k] % (old(
                        self,
                    ).n_per_complex as int)]@)),
            req matches Request::Gnrng { population, lower, upper } && population@.len() == final(self).population@.len() && (forall|i: int|
                0 <= i < population@.len() ==> (#[trigger] population@[i])@ == final(self).population@[i]@) && lower@ == old(self).model.lower@ && upper@ == old(self).model.upper@,
    {
        let k_c = self.n_complexes;
        let m_per = self.n_per_complex;
        let total = self.n_pop;
        let mut merged: Vec<Vec<u64>> = Vec::new();
        let mut mobj: Vec<Vec<u64>> = Vec::new();
        let mut i: usize = 0;
        while i < total
            invariant
                0 <= i <= total,
                old(self).base_wf(),
                old(self).complexes_wf(),
                *self == *old(self),
                k_c == self.n_complexes,
                m_per == self.n_per_complex,
                total == self.n_pop,
                merged@.len() == i,
                mobj@.len() == i,
                merged_pinned(merged@, mobj@, self.complexes@, self.complex_objs@, i as int, m_per as int),
            decreases total - i,
        {
            proof {
                assert(i / m_per < k_c) by (nonlinear_arith)
                    requires
                        0 <= i < total && total == k_c * m_per && m_per >= 1,
                ;
                assert(0 <= i % m_per < m_per);
            }
            let cc = i / m_per;
            let jj = i % m_per;
            let prow = self.complexes[cc][jj].clone();
            let orow = self.complex_objs[cc][jj].clone();
            proof {
                assert(prow@ =~= self.complexes@[cc as int]@[jj as int]@);
                assert(orow@ =~= self.complex_objs@[cc as int]@[jj as int]@);
            }
            let ghost pre_m = merged@;
            let ghost pre_o = mobj@;
            merged.push(prow);
            mobj.push(orow);
            proof {
                assert(merged_pinned(
                    merged@,
                    mobj@,
                    self.complexes@,
                    self.complex_objs@,
                    i + 1,
                    m_per as int,
                )) by {
                    assert forall|i2: int|
                        0 <= i2 < i + 1 implies (#[trigger] merged@[i2])@ == self.complexes@[i2
                        / (m_per as int)]@[i2 % (m_per as int)]@ && mobj@[i2]@
                        == self.complex_objs@[i2 / (m_per as int)]@[i2 % (m_per as int)]@ by {
                        if i2 < i {
                            assert(merged@[i2] == pre_m[i2]);
                            assert(mobj@[i2] == pre_o[i2]);
                            assert(pre_m[i2]@ == self.complexes@[i2 / (m_per as int)]@[i2 % (
                            m_per as int)]@);
                            assert(pre_o[i2]@ == self.complex_objs@[i2 / (m_per as int)]@[i2 % (
                            m_per as int)]@);
                        } else {
                            assert(merged@[i2]@ == prow@);
                            assert(mobj@[i2]@ == orow@);
                        }
                    }
                }
            }
            i += 1;
        }

        let ghost pre_rows = merged@;
        let ghost pre_objs = mobj@;
        proof {
            // The concatenation is a well-formed block.
            assert forall|i2: int| 0 <= i2 < pre_rows.len() implies (#[trigger] pre_rows[i2])@.len()
                == self.model.n_params && pre_objs[i2]@.len() == 3 && row_in_box(
                self.model.lower@,
                self.model.upper@,
                pre_rows[i2]@,
            ) by {
                assert(i2 / (m_per as int) < k_c) by (nonlinear_arith)
                    requires
                        0 <= i2 < total as int && total == k_c * m_per && m_per >= 1,
                ;
                assert(0 <= i2 % (m_per as int) < m_per as int);
                let cc = i2 / (m_per as int);
                let jj = i2 % (m_per as int);
                assert(pre_rows[i2]@ == self.complexes@[cc]@[jj]@);
                assert(pre_objs[i2]@ == self.complex_objs@[cc]@[jj]@);
                assert(rows_wf(
                    self.complexes@[cc]@,
                    self.complex_objs@[cc]@,
                    self.model.lower@,
                    self.model.upper@,
                    self.model.n_params as int,
                ));
                assert(self.complexes@[cc]@.len() == m_per);
            }
            assert forall|i2: int| 0 <= i2 < pre_objs.len() implies (#[trigger] pre_objs[i2])@.len()
                == 3 by {
                assert(pre_rows[i2]@.len() == self.model.n_params);
            }
        }
        self.population = merged;
        self.objectives = mobj;
        sort_by_objective(&mut self.population, &mut self.objectives, self.obj_idx, self.minimize);
        proof {
            lemma_pairs_shapes(
                self.population@,
                self.objectives@,
                pre_rows,
                pre_objs,
                self.model.lower@,
                self.model.upper@,
                self.model.n_params as int,
            );
            // The witness complex's best sits at a multiple of m_per in the
            // concatenation; after the sort the front ranks at least as
            // well, so the new best does not worsen the last criterion.
            let c0 = choose|c: int|
                0 <= c < old(self).n_complexes && spec_rank(
                    #[trigger] old(self).complex_objs@[c]@[0]@[old(self).obj_idx as int],
                    old(self).minimize,
                ) <= spec_rank(old(self).criteria@.last(), old(self).minimize);
            let w = c0 * (m_per as int);
            assert(0 <= w && w + m_per <= total) by (nonlinear_arith)
                requires
                    0 <= c0 < k_c && total == k_c * m_per && m_per >= 1 && w == c0 * m_per,
            ;
            assert(w == (m_per as int) * c0) by (nonlinear_arith)
                requires
                    w == c0 * m_per,
            ;
            vstd::arithmetic::div_mod::lemma_div_multiples_vanish(c0, m_per as int);
            vstd::arithmetic::div_mod::lemma_mod_multiples_basic(c0, m_per as int);
            assert(w / (m_per as int) == c0 && w % (m_per as int) == 0);
            assert(pre_rows[w]@ == old(self).complexes@[c0]@[0]@);
            assert(pre_objs[w]@ == old(self).complex_objs@[c0]@[0]@);
            assert(pair_appears(pre_rows, pre_objs, self.population@, self.objectives@, w));
            let iw = choose|j: int|
                0 <= j < self.population@.len() && pre_rows[w]@ == #[trigger] self.population@[j]@
                    && pre_objs[w]@ == self.objectives@[j]@;
            assert(spec_rank(self.objectives@[0]@[self.obj_idx as int], self.minimize)
                <= spec_rank(self.objectives@[iw]@[self.obj_idx as int], self.minimize));
            assert(spec_rank(self.objectives@[0]@[self.obj_idx as int], self.minimize)
                <= spec_rank(old(self).criteria@.last(), old(self).minimize));
            // The sort's permutation, composed with the complex-by-complex
            // layout of the concatenation, pins the shuffled population.
            let sperm = choose|perm: Seq<int>|
                (#[trigger] is_sort_permutation(perm, pre_rows.len() as int) && (forall|k: int|
                    0 <= k < pre_rows.len() ==> (#[trigger] self.population@[k])@ == pre_rows[perm[k]]@
                        && self.objectives@[k]@ == pre_objs[perm[k]]@) && (forall|a: int, b: int|
                    #![trigger perm[a], perm[b]]
                    0 <= a < b < pre_rows.len() && spec_rank(
                        self.objectives@[a]@[self.obj_idx as int],
                        self.minimize,
                    ) == spec_rank(self.objectives@[b]@[self.obj_idx as int], self.minimize)
                        ==> perm[a] < perm[b]));
            assert(is_sort_permutation(sperm, old(self).n_pop as int));
            assert forall|k: int| 0 <= k < old(self).n_pop implies (#[trigger] self.population@[k])@
                == old(self).complexes@[sperm[k] / (old(self).n_per_complex as int)]@[sperm[k] % (
            old(self).n_per_complex as int)]@ && self.objectives@[k]@ == old(self).complex_objs@[sperm[k]
                / (old(self).n_per_complex as int)]@[sperm[k] % (old(self).n_per_complex as int)]@ by {
                let idx = sperm[k];
                assert(0 <= idx < total);
                assert(self.population@[k]@ == pre_rows[idx]@);
                assert(self.objectives@[k]@ == pre_objs[idx]@);
                assert(pre_rows[idx]@ == self.complexes@[idx / (m_per as int)]@[idx % (
                m_per as int)]@);
                assert(pre_objs[idx]@ == self.complex_objs@[idx / (m_per as int)]@[idx % (
                m_per as int)]@);
            }
        }

        let best_val = self.objectives[0][self.obj_idx];
        let ghost pre_crit = self.criteria@;
        self.criteria.push(best_val);
        proof {
            assert forall|a: int, b: int|
                0 <= a <= b < self.criteria@.len() implies spec_rank(
                #[trigger] self.criteria@[b],
                self.minimize,
            ) <= spec_rank(#[trigger] self.criteria@[a], self.minimize) by {
                if b < pre_crit.len() {
                    assert(self.criteria@[a] == pre_crit[a] && self.criteria@[b] == pre_crit[b]);
                    assert(spec_rank(pre_crit[b], self.minimize) <= spec_rank(
                        pre_crit[a],
                        self.minimize,
                    ));
                } else {
                    assert(self.criteria@[b] == best_val);
                    if a < pre_crit.len() {
                        assert(self.criteria@[a] == pre_crit[a]);
                        assert(spec_rank(pre_crit[pre_crit.len() - 1], self.minimize) <= spec_rank(
                            pre_crit[a],
                            self.minimize,
                        ));
                        assert(pre_crit.last() == pre_crit[pre_crit.len() - 1]);
                    }
                }
            }
        }
        let b = self.population[0].clone();
        proof {
            assert(b@ =~= self.population@[0]@);
        }
        self.best = b;
        self.phase = Phase::GnrngScalar;

        let population = clone_matrix(&self.population);
        let lower = self.model.lower.clone();
        let upper = self.model.upper.clone();
        proof {
            assert(lower@ =~= self.model.lower@);
            assert(upper@ =~= self.model.upper@);
        }
        Request::Gnrng { population, lower, upper }
    }

    /// Absorbs an objective row for the candidate under evaluation and
    /// plays the competitive step: a first candidate worse than the worst
    /// simplex member triggers a contraction request; a worse contraction
    /// triggers a uniform last-resort sample; anything else (always, for
    /// the last resort) replaces the worst simplex member. Worse means a
    /// strictly worse competitive rank of the driving objective, so a NaN
    /// objective always loses. Each absorbed row counts one model
    /// evaluation.
    #[verifier::spinoff_prover]
    #[verifier::rlimit(100)]
    fn absorb_objectives(&mut self, f: Vec<u64>) -> (r: Result<Outcome, Error>)
        requires
            old(self).wf(),
            old(self).phase == Phase::EvalObj1 || old(self).phase == Phase::EvalObj2 || old(self).phase == Phase::EvalObj3,
        ensures
            final(self).wf(),
            f@.len() != 3 ==> (r matches Err(e) && e matches Error::Protocol && *final(self)
                == *old(self)),
            f@.len() == 3 ==> r is Ok,
            f@.len() == 3 ==> final(self).n_calls == (if old(self).n_calls < usize::MAX {
                old(self).n_calls + 1
            } else {
                old(self).n_calls as int
            }),
            f@.len() == 3 && old(self).phase == Phase::EvalObj1 && spec_rank(
                f@[old(self).obj_idx as int],
                old(self).minimize,
            ) > old(self).worst_rank() ==> (r matches Ok(o) && o matches Outcome::Pending(req2)
                && req2 matches Request::Contract { simplex } && simplex@.len() == old(self).n_simplex && (forall|q: int|
                0 <= q < simplex@.len() ==> (#[trigger] simplex@[q])@ == old(self).complexes@[old(self).igs as int]@[old(self).sidx@[q] as int]@) && final(self).phase
                == Phase::ContractCand && final(self).stream == old(self).stream),
            f@.len() == 3 && old(self).phase == Phase::EvalObj2 && spec_rank(
                f@[old(self).obj_idx as int],
                old(self).minimize,
            ) > old(self).worst_rank() ==> (r matches Ok(o) && o matches Outcome::Pending(req2)
                && req2 matches Request::UniformRow { draws, lower, upper } && draws@.len() == old(self).model.n_params && lower@ == old(self).model.lower@ && upper@ == old(self).model.upper@ && (forall|i: int|
                0 <= i < draws@.len() ==> draws@[i] == chacha_stream(
                    old(self).stream.seed,
                    stream_pos(old(self).stream.index, i),
                )) && final(self).stream.index == stream_pos(
                old(self).stream.index,
                old(self).model.n_params as int,
            ) && final(self).phase == Phase::UniformCand3),
            f@.len() == 3 && (old(self).phase == Phase::EvalObj3 || spec_rank(
                f@[old(self).obj_idx as int],
                old(self).minimize,
            ) <= old(self).worst_rank()) ==> (r matches Ok(o) && o matches Outcome::Pending(req2)
                && ((req2 is Reflect && final(self).phase == Phase::ReflectCand) || (req2 is Gnrng
                && final(self).phase == Phase::GnrngScalar)) && Self::others_unchanged(
                *final(self),
                *old(self),
            ) && (exists|perm: Seq<int>| #[trigger] Self::complex_replaced(
                *final(self),
                *old(self),
                f@,
                perm,
            ))),
            final(self).done == old(self).done,
            final(self).initialized == old(self).initialized,
            old(self).criteria@.is_prefix_of(final(self).criteria@),
    {
        if f.len() != 3 {
            return Err(Error::Protocol);
        }
        self.n_calls = if self.n_calls < usize::MAX {
            self.n_calls + 1
        } else {
            self.n_calls
        };
        proof {
            lemma_complexes_wf_frame(*old(self), *self);
            assert(self.base_wf());
            assert(self.sidx_wf());
            assert(self.cand_wf());
            assert(old(self).budget_ok());
            assert(old(self).round_stage() <= 2);
        }

        let last_of_simplex = self.sidx[self.n_simplex - 1];
        proof {
            assert(self.sidx@[self.n_simplex - 1] < self.n_per_complex);
            assert(self.complexes@[self.igs as int]@.len() == self.n_per_complex);
            assert(rows_wf(
                self.complexes@[self.igs as int]@,
                self.complex_objs@[self.igs as int]@,
                self.model.lower@,
                self.model.upper@,
                self.model.n_params as int,
            ));
            assert(self.complex_objs@[self.igs as int]@[last_of_simplex as int]@.len() == 3);
        }
        let fw = self.complex_objs[self.igs][last_of_simplex][self.obj_idx];
        let worse = crate::scalar::rank_of(f[self.obj_idx], self.minimize)
            > crate::scalar::rank_of(fw, self.minimize);

        let first_try = match self.phase {
            Phase::EvalObj1 => true,
            _ => false,
        };
        let second_try = match self.phase {
            Phase::EvalObj2 => true,
            _ => false,
        };

        if first_try && worse {
            let simplex = self.gather_simplex();
            let ghost pre2 = *self;
            self.phase = Phase::ContractCand;
            proof {
                lemma_complexes_wf_frame(pre2, *self);
                assert(self.rounds_done() == old(self).rounds_done());
                assert(self.budget_ok());
            }
            return Ok(Outcome::Pending(Request::Contract { simplex }));
        }
        if second_try && worse {
            let n = self.model.n_params;
            let draws = self.stream.next_words(n);
            let lower = self.model.lower.clone();
            let upper = self.model.upper.clone();
            proof {
                assert(lower@ =~= self.model.lower@);
                assert(upper@ =~= self.model.upper@);
            }
            let ghost pre2 = *self;
            self.phase = Phase::UniformCand3;
            proof {
                lemma_complexes_wf_frame(pre2, *self);
                assert(self.rounds_done() == old(self).rounds_done());
                assert(self.budget_ok());
            }
            return Ok(Outcome::Pending(Request::UniformRow { draws, lower, upper }));
        }

        let ghost bumped = *self;
        self.commit_candidate(f);
        let ghost committed = *self;
        let ghost cperm: Seq<int> = choose|perm: Seq<int>|
            #[trigger] Self::complex_replaced(committed, bumped, f@, perm);
        proof {
            assert(Self::complex_replaced(committed, bumped, f@, cperm));
        }
        if self.estep + 1 < self.n_evolution_steps {
            self.estep = self.estep + 1;
            proof {
                lemma_complexes_wf_frame(committed, *self);
                assert(self.rounds_done() == old(self).rounds_done() + 1);
                assert(self.round_start_budget());
            }
            let req = self.begin_evolution();
            proof {
                Self::lemma_replaced_transfer(committed, bumped, *self, *old(self), f@, cperm);
                assert(exists|perm: Seq<int>| #[trigger] Self::complex_replaced(
                    *self,
                    *old(self),
                    f@,
                    perm,
                ));
                Self::lemma_others_transfer(committed, bumped, *self, *old(self));
            }
            Ok(Outcome::Pending(req))
        } else if self.igs + 1 < self.n_complexes {
            self.estep = 0;
            self.igs = self.igs + 1;
            proof {
                lemma_complexes_wf_frame(committed, *self);
                let gi = self.igs;
                let ge = self.n_evolution_steps;
                let gi0 = committed.igs;
                assert(gi * ge == gi0 * ge + ge) by (nonlinear_arith)
                    requires
                        gi == gi0 + 1,
                ;
                assert(old(self).estep == old(self).n_evolution_steps - 1);
                assert(self.rounds_done() == old(self).rounds_done() + 1);
                assert(self.round_start_budget());
            }
            let req = self.begin_evolution();
            proof {
                Self::lemma_replaced_transfer(committed, bumped, *self, *old(self), f@, cperm);
                assert(exists|perm: Seq<int>| #[trigger] Self::complex_replaced(
                    *self,
                    *old(self),
                    f@,
                    perm,
                ));
                Self::lemma_others_transfer(committed, bumped, *self, *old(self));
            }
            Ok(Outcome::Pending(req))
        } else {
            proof {
                assert(old(self).estep == old(self).n_evolution_steps - 1);
                assert(old(self).igs == old(self).n_complexes - 1);
                let gi = committed.igs;
                let ge = committed.n_evolution_steps;
                let gk = committed.n_complexes;
                assert(gi * ge + ge == gk * ge) by (nonlinear_arith)
                    requires
                        gi == gk - 1,
                ;
                assert(old(self).rounds_done() == old(self).n_complexes * old(self).n_evolution_steps - 1);
                assert(self.step_budget_ok());
            }
            let req = self.finish_complexes();
            proof {
                Self::lemma_replaced_transfer(committed, bumped, *self, *old(self), f@, cperm);
                assert(exists|perm: Seq<int>| #[trigger] Self::complex_replaced(
                    *self,
                    *old(self),
                    f@,
                    perm,
                ));
                Self::lemma_others_transfer(committed, bumped, *self, *old(self));
            }
            Ok(Outcome::Pending(req))
        }
    }

    /// Absorbs the normalized geometric range and either requests the
    /// relative criteria change (once the criteria window is full) or
    /// settles convergence with that change taken as positive infinity.
    ///
    /// The window is the last `k_stop` recorded best values; the change the
    /// caller computes is the absolute difference between the window's last
    /// and first entries, scaled by the window's mean magnitude. The first
    /// entry is the best of `k_stop - 1` steps ago: the span covers
    /// `k_stop` recordings, window ends included.
    #[verifier::spinoff_prover]
    fn absorb_gnrng(&mut self, g: u64) -> (r: Result<Outcome, Error>)
        requires
            old(self).wf(),
            old(self).phase == Phase::GnrngScalar,
        ensures
            final(self).wf(),
            r is Ok,
            final(self).gnrng == g,
            old(self).criteria@.len() >= old(self).k_stop ==> (r matches Ok(o) && o matches
                Outcome::Pending(req2) && req2 matches Request::CriteriaChange { window }
                && window@ == old(self).criteria@.subrange(
                old(self).criteria@.len() - old(self).k_stop,
                old(self).criteria@.len() as int,
            ) && final(self).phase == Phase::CriteriaScalar),
            old(self).criteria@.len() < old(self).k_stop ==> (r matches Ok(o) && o matches
                Outcome::Pending(req2) && req2 matches Request::Simulate { params } && params@
                == old(self).best@ && final(self).phase == Phase::SimSeries && final(self).done
                == (old(self).done || old(self).n_calls > old(self).max_evaluations
                || crate::scalar::spec_lt(g, old(self).geometric_range_threshold))),
            final(self).criteria == old(self).criteria,
            final(self).n_calls == old(self).n_calls,
            old(self).done ==> final(self).done,
            final(self).initialized == old(self).initialized,
    {
        self.gnrng = g;
        if self.criteria.len() >= self.k_stop {
            let start = self.criteria.len() - self.k_stop;
            let mut window: Vec<u64> = Vec::new();
            let mut i: usize = start;
            while i < self.criteria.len()
                invariant
                    start <= i <= self.criteria@.len(),
                    old(self).wf(),
                    self.gnrng == g,
                    *self == old(self).spec_with_gnrng(g),
                    start == self.criteria@.len() - old(self).k_stop,
                    window@.len() == i - start,
                    forall|q: int|
                        0 <= q < i - start ==> #[trigger] window@[q] == self.criteria@[start + q],
                decreases self.criteria@.len() - i,
            {
                let v = self.criteria[i];
                window.push(v);
                i += 1;
            }
            self.phase = Phase::CriteriaScalar;
            proof {
                assert(self.step_budget_ok());
            }
            Ok(Outcome::Pending(Request::CriteriaChange { window }))
        } else {
            Ok(Outcome::Pending(self.finalize_step(POS_INF)))
        }
    }

    /// `self` with the stored geometric range replaced (specification
    /// helper).
    pub open spec fn spec_with_gnrng(self, gnrng: u64) -> Sce {
        Sce { gnrng, ..self }
    }

    /// Absorbs the relative criteria change and settles convergence.
    fn absorb_criteria_change(&mut self, cc: u64) -> (r: Result<Outcome, Error>)
        requires
            old(self).wf(),
            old(self).phase == Phase::CriteriaScalar,
        ensures
            final(self).wf(),
            r matches Ok(o) && o matches Outcome::Pending(req2) && req2 matches Request::Simulate {
                params,
            } && params@ == old(self).best@,
            final(self).phase == Phase::SimSeries,
            final(self).done == (old(self).done || old(self).n_calls > old(self).max_evaluations
                || crate::scalar::spec_lt(old(self).gnrng, old(self).geometric_range_threshold)
                || crate::scalar::spec_lt(cc, old(self).p_convergence_threshold)),
            final(self).criteria == old(self).criteria,
            final(self).n_calls == old(self).n_calls,
            final(self).initialized == old(self).initialized,
    {
        Ok(Outcome::Pending(self.finalize_step(cc)))
    }

    /// Settles whether the optimizer has converged — the evaluation budget
    /// is spent, the population has collapsed geometrically, or the
    /// criteria window changed too little — and requests the simulation
    /// for the best parameter vector.
    fn finalize_step(&mut self, cc: u64) -> (req: Request)
        requires
            old(self).wf(),
            old(self).phase == Phase::GnrngScalar || old(self).phase == Phase::CriteriaScalar,
        ensures
            final(self).wf(),
            final(self).phase == Phase::SimSeries,
            final(self).done == (old(self).done || old(self).n_calls > old(self).max_evaluations
                || crate::scalar::spec_lt(old(self).gnrng, old(self).geometric_range_threshold)
                || crate::scalar::spec_lt(cc, old(self).p_convergence_threshold)),
            req matches Request::Simulate { params } && params@ == old(self).best@,
            final(self).criteria == old(self).criteria,
            final(self).n_calls == old(self).n_calls,
            final(self).best == old(self).best,
            final(self).population == old(self).population,
            final(self).objectives == old(self).objectives,
            final(self).initialized == old(self).initialized,
            final(self).stream == old(self).stream,
            final(self).t == old(self).t,
            final(self).gnrng == old(self).gnrng,
    {
        let over_budget = self.n_calls > self.max_evaluations;
        let collapsed = crate::scalar::lt_b(self.gnrng, self.geometric_range_threshold);
        let stalled = crate::scalar::lt_b(cc, self.p_convergence_threshold);
        self.done = self.done || over_budget || collapsed || stalled;
        let params = self.best.clone();
        proof {
            assert(params@ =~= self.best@);
        }
        self.phase = Phase::SimSeries;
        Request::Simulate { params }
    }

    /// Absorbs the simulation for the best parameter vector and closes the
    /// step, handing back the convergence flag, the best parameters, the
    /// simulation exactly as replied, and the best objective row.
    #[verifier::spinoff_prover]
    fn absorb_series(&mut self, sim: Vec<u64>) -> (r: Result<Outcome, Error>)
        requires
            old(self).wf(),
            old(self).phase == Phase::SimSeries,
        ensures
            final(self).wf(),
            sim@.len() != old(self).t ==> (r matches Err(e) && e matches Error::Protocol && *final(self) == *old(self)),
            sim@.len() == old(self).t ==> (r matches Ok(o) && o matches Outcome::StepDone {
                done,
                best_params,
                best_simulation,
                best_objectives,
            } && done == old(self).done && best_params@ == old(self).best@ && best_simulation@
                == sim@ && best_objectives@ == old(self).objectives@[0]@ && final(self).phase
                == Phase::Idle),
            Self::step_done_frame(*final(self), *old(self)),
            final(self).initialized == old(self).initialized,
    {
        if sim.len() != self.t {
            return Err(Error::Protocol);
        }
        let best_params = self.best.clone();
        let best_objectives = self.objectives[0].clone();
        proof {
            assert(best_params@ =~= self.best@);
            assert(best_objectives@ =~= self.objectives@[0]@);
        }
        self.phase = Phase::Idle;
        Ok(
            Outcome::StepDone {
                done: self.done,
                best_params,
                best_simulation: sim,
                best_objectives,
            },
        )
    }

    /// Which replies the engine accepts in its current phase, shapes
    /// included: a reply of any other kind or shape is refused without
    /// touching the state.
    pub open spec fn expects(self, reply: Reply) -> bool {
        match self.phase {
            Phase::Idle => false,
            Phase::InitCandidates => reply matches Reply::Rows(rows) && rows@.len() == self.n_pop
                - 1 && (forall|i: int|
                0 <= i < rows@.len() ==> (#[trigger] rows@[i])@.len() == self.model.n_params),
            Phase::InitObjectives => reply matches Reply::ObjectiveRows(objs) && objs@.len()
                == self.n_pop && (forall|i: int|
                0 <= i < objs@.len() ==> (#[trigger] objs@[i])@.len() == 3),
            Phase::ReflectCand => reply matches Reply::Candidate(c) && c@.len()
                == self.model.n_params,
            Phase::UniformCand1 => reply matches Reply::Candidate(c) && c@.len()
                == self.model.n_params,
            Phase::ContractCand => reply matches Reply::Candidate(c) && c@.len()
                == self.model.n_params,
            Phase::UniformCand3 => reply matches Reply::Candidate(c) && c@.len()
                == self.model.n_params,
            Phase::EvalObj1 => reply matches Reply::Objectives(f) && f@.len() == 3,
            Phase::EvalObj2 => reply matches Reply::Objectives(f) && f@.len() == 3,
            Phase::EvalObj3 => reply matches Reply::Objectives(f) && f@.len() == 3,
            Phase::GnrngScalar => reply is Scalar,
            Phase::CriteriaScalar => reply is Scalar,
            Phase::SimSeries => reply matches Reply::Series(sv) && sv@.len() == self.t,
        }
    }

    /// Hands the engine the reply to its pending request and advances it.
    /// A reply of the wrong kind or shape — or any reply while idle — is
    /// refused with `Protocol` and changes nothing. Replies to a converged
    /// engine advance neither the population nor the evaluation count, and
    /// the convergence flag never clears.
    #[verifier::spinoff_prover]
    #[verifier::rlimit(100)]
    pub fn resume(&mut self, reply: Reply) -> (r: Result<Outcome, Error>)
        requires
            old(self).wf(),
        ensures
            final(self).wf(),
            r matches Err(e) ==> (e matches Error::Protocol && *final(self) == *old(self)),
            (r is Err) <==> !old(self).expects(reply),
            old(self).done ==> final(self).done,
            final(self).n_calls >= old(self).n_calls,
            old(self).initialized ==> final(self).initialized,
            old(self).phase != Phase::InitObjectives ==> old(self).criteria@.is_prefix_of(
                final(self).criteria@,
            ),
            old(self).phase == Phase::SimSeries && old(self).expects(reply) ==> (r matches Ok(o)
                && o matches Outcome::StepDone {
                done,
                best_params,
                best_simulation,
                best_objectives,
            } && done == old(self).done && best_params@ == old(self).best@ && best_objectives@
                == old(self).objectives@[0]@ && (reply matches Reply::Series(sv)
                ==> best_simulation@ == sv@) && final(self).phase == Phase::Idle
                && Self::step_done_frame(*final(self), *old(self))),
            old(self).phase == Phase::InitObjectives && old(self).expects(reply) ==> (r matches Ok(
                o,
            ) && o matches Outcome::InitDone && final(self).initialized && final(self).phase
                == Phase::Idle),
            old(self).expects(reply) ==> r is Ok,
            old(self).phase == Phase::InitCandidates && old(self).expects(reply) ==> (r matches Ok(
                o,
            ) && o matches Outcome::Pending(req2) && req2 is EvaluateRows && final(self).phase
                == Phase::InitObjectives),
            old(self).phase == Phase::ReflectCand && old(self).expects(reply) ==> final(self).phase
                == Phase::EvalObj1 || final(self).phase == Phase::UniformCand1,
            old(self).phase == Phase::UniformCand1 && old(self).expects(reply) ==> final(self).phase
                == Phase::EvalObj1,
            old(self).phase == Phase::ContractCand && old(self).expects(reply) ==> final(self).phase
                == Phase::EvalObj2,
            old(self).phase == Phase::UniformCand3 && old(self).expects(reply) ==> final(self).phase
                == Phase::EvalObj3,
            old(self).phase == Phase::EvalObj1 && old(self).expects(reply) ==> final(self).phase
                == Phase::ContractCand || final(self).phase == Phase::ReflectCand || final(self).phase == Phase::GnrngScalar,
            old(self).phase == Phase::EvalObj2 && old(self).expects(reply) ==> final(self).phase
                == Phase::UniformCand3 || final(self).phase == Phase::ReflectCand || final(self).phase == Phase::GnrngScalar,
            old(self).phase == Phase::EvalObj3 && old(self).expects(reply) ==> final(self).phase
                == Phase::ReflectCand || final(self).phase == Phase::GnrngScalar,
            old(self).phase == Phase::GnrngScalar && old(self).expects(reply) ==> final(self).phase
                == Phase::CriteriaScalar || final(self).phase == Phase::SimSeries,
            old(self).phase == Phase::CriteriaScalar && old(self).expects(reply) ==> final(self).phase == Phase::SimSeries,
            reply matches Reply::Scalar(cc) ==> (old(self).phase == Phase::CriteriaScalar ==> final(self).done == (old(self).done || old(self).n_calls > old(self).max_evaluations
                || crate::scalar::spec_lt(old(self).gnrng, old(self).geometric_range_threshold)
                || crate::scalar::spec_lt(cc, old(self).p_convergence_threshold))),
            reply matches Reply::Scalar(g) ==> (old(self).phase == Phase::GnrngScalar && old(self).criteria@.len() < old(self).k_stop ==> final(self).done == (old(self).done || old(self).n_calls > old(self).max_evaluations
                || crate::scalar::spec_lt(g, old(self).geometric_range_threshold))),
            reply matches Reply::Scalar(g) ==> (old(self).phase == Phase::GnrngScalar && old(self).criteria@.len() >= old(self).k_stop ==> (r matches Ok(o) && o matches Outcome::Pending(
                req2,
            ) && req2 matches Request::CriteriaChange { window } && window@ == old(self).criteria@.subrange(
                old(self).criteria@.len() - old(self).k_stop,
                old(self).criteria@.len() as int,
            ))),
            (old(self).phase == Phase::EvalObj1 || old(self).phase == Phase::EvalObj2 || old(self).phase == Phase::EvalObj3) && old(self).expects(reply) ==> final(self).n_calls == (
            if old(self).n_calls < usize::MAX {
                old(self).n_calls + 1
            } else {
                old(self).n_calls as int
            }),
            reply matches Reply::Objectives(f) ==> (old(self).phase == Phase::EvalObj1 && f@.len()
                == 3 && spec_rank(f@[old(self).obj_idx as int], old(self).minimize) > old(self).worst_rank() ==> (r matches Ok(o) && o matches Outcome::Pending(req2)
                && req2 matches Request::Contract { simplex } && simplex@.len() == old(self).n_simplex && (forall|q: int|
                0 <= q < simplex@.len() ==> (#[trigger] simplex@[q])@ == old(self).complexes@[old(self).igs as int]@[old(self).sidx@[q] as int]@))),
            reply matches Reply::Objectives(f) ==> ((old(self).phase == Phase::EvalObj3 || (old(self).phase == Phase::EvalObj1 || old(self).phase == Phase::EvalObj2) && spec_rank(
                f@[old(self).obj_idx as int],
                old(self).minimize,
            ) <= old(self).worst_rank()) && f@.len() == 3 ==> (Self::others_unchanged(
                *final(self),
                *old(self),
            ) && (exists|perm: Seq<int>| #[trigger] Self::complex_replaced(
                *final(self),
                *old(self),
                f@,
                perm,
            )))),
            reply matches Reply::Rows(rows) ==> (old(self).phase == Phase::InitCandidates && old(self).expects(reply) ==> (r matches Ok(o) && o matches Outcome::Pending(req2)
                && req2 matches Request::EvaluateRows { rows: sent } && sent@.len() == old(self).n_pop && sent@[0]@ == old(self).model.midpoints@ && (forall|i: int, j: int|
                0 <= i < rows@.len() && 0 <= j < old(self).model.n_params ==> sent@[i + 1]@[j]
                    == spec_clamp(
                    old(self).model.lower@[j],
                    old(self).model.upper@[j],
                    #[trigger] rows@[i]@[j],
                )) && final(self).stream == old(self).stream)),
            reply matches Reply::ObjectiveRows(objs) ==> (old(self).phase == Phase::InitObjectives
                && old(self).expects(reply) ==> (final(self).criteria@.len() == 1 && final(self).criteria@[0] == final(self).objectives@[0]@[old(self).obj_idx as int] && final(self).best@ == final(self).population@[0]@ && final(self).stream == old(self).stream
                && (exists|perm: Seq<int>| #[trigger] Self::init_sorted_pinned(
                *final(self),
                *old(self),
                objs@,
                perm,
            )))),
            reply matches Reply::Candidate(c) ==> (old(self).phase == Phase::ReflectCand && c@.len()
                == old(self).model.n_params && row_in_box(
                old(self).model.lower@,
                old(self).model.upper@,
                c@,
            ) ==> (r matches Ok(o) && o matches Outcome::Pending(req2) && req2 matches
                Request::Evaluate { params } && params@ == c@ && final(self).stream == old(self).stream)),
            reply matches Reply::Candidate(c) ==> (old(self).phase == Phase::ReflectCand && c@.len()
                == old(self).model.n_params && !row_in_box(
                old(self).model.lower@,
                old(self).model.upper@,
                c@,
            ) ==> (r matches Ok(o) && o matches Outcome::Pending(req2) && req2 matches
                Request::UniformRow { draws, lower, upper } && draws@.len() == old(self).model.n_params && lower@ == old(self).model.lower@ && upper@ == old(self).model.upper@
                && (forall|i: int|
                0 <= i < draws@.len() ==> draws@[i] == chacha_stream(
                    old(self).stream.seed,
                    stream_pos(old(self).stream.index, i),
                )) && final(self).stream.index == stream_pos(
                old(self).stream.index,
                old(self).model.n_params as int,
            ))),
            reply matches Reply::Candidate(c) ==> ((old(self).phase == Phase::UniformCand1 || old(self).phase == Phase::UniformCand3 || old(self).phase == Phase::ContractCand) && c@.len()
                == old(self).model.n_params ==> (r matches Ok(o) && o matches Outcome::Pending(
                req2,
            ) && req2 matches Request::Evaluate { params } && params@ == final(self).cand@ && (
            forall|q: int|
                0 <= q < c@.len() ==> final(self).cand@[q] == spec_clamp(
                    old(self).model.lower@[q],
                    old(self).model.upper@[q],
                    #[trigger] c@[q],
                )))),
    {
        match reply {
            Reply::Rows(rows) => match self.phase {
                Phase::InitCandidates => self.absorb_init_candidates(rows),
                _ => Err(Error::Protocol),
            },
            Reply::ObjectiveRows(objs) => match self.phase {
                Phase::InitObjectives => self.absorb_init_objectives(objs),
                _ => Err(Error::Protocol),
            },
            Reply::Candidate(c) => match self.phase {
                Phase::ReflectCand => self.absorb_reflection(c),
                Phase::UniformCand1 => self.absorb_uniform(c, false),
                Phase::UniformCand3 => self.absorb_uniform(c, true),
                Phase::ContractCand => self.absorb_contract(c),
                _ => Err(Error::Protocol),
            },
            Reply::Objectives(f) => match self.phase {
                Phase::EvalObj1 => self.absorb_objectives(f),
                Phase::EvalObj2 => self.absorb_objectives(f),
                Phase::EvalObj3 => self.absorb_objectives(f),
                _ => Err(Error::Protocol),
            },
            Reply::Scalar(v) => match self.phase {
                Phase::GnrngScalar => self.absorb_gnrng(v),
                Phase::CriteriaScalar => self.absorb_criteria_change(v),
                _ => Err(Error::Protocol),
            },
            Reply::Series(sv) => match self.phase {
                Phase::SimSeries => self.absorb_series(sv),
                _ => Err(Error::Protocol),
            },
        }
    }

    /// Whether the optimizer has converged (sticky once set).
    pub fn is_done(&self) -> (r: bool)
        ensures
            r == self.done,
    {
        self.done
    }

    /// The best parameter vector found so far.
    pub fn best_params(&self) -> (r: Vec<u64>)
        ensures
            r@ == self.best@,
    {
        let r = self.best.clone();
        proof {
            assert(r@ =~= self.best@);
        }
        r
    }

    /// The objective row (RMSE, NSE, KGE) of the best population member.
    pub fn best_objectives(&self) -> (r: Vec<u64>)
        requires
            self.wf(),
        ensures
            r@ == self.objectives@[0]@,
    {
        let r = self.objectives[0].clone();
        proof {
            assert(r@ =~= self.objectives@[0]@);
        }
        r
    }

    /// How many model evaluations the evolution has spent.
    pub fn n_evaluations(&self) -> (r: usize)
        ensures
            r == self.n_calls,
    {
        self.n_calls
    }
}

} // verus!
