//! The model registry: parameter counts, default parameters and bounds of
//! the rainfall-runoff model ("gr4j"), the snow module ("cemaneige"), and
//! their composition (snow parameters first).
//!
//! Parameter values are IEEE-754 double-precision encodings; each constant's
//! doc alias in decimal is given beside it.

use vstd::prelude::*;
use crate::errors::Error;
use crate::scalar::{spec_le, in_interval};
use crate::strutil::str_eq;

verus! {

/// The rainfall-runoff models the registry knows.
#[derive(Debug, Clone, Copy, PartialEq, Eq, Structural)]
pub enum RunoffKind {
    Gr4j,
}

/// The snow modules the registry knows.
#[derive(Debug, Clone, Copy, PartialEq, Eq, Structural)]
pub enum SnowKind {
    Cemaneige,
}

/// Lower parameter bounds of gr4j: x1 = 10, x2 = -5, x3 = 10, x4 = 0.8.
pub open spec fn gr4j_lower() -> Seq<u64> {
    seq![0x4024000000000000u64, 0xC014000000000000u64, 0x4024000000000000u64, 0x3FE999999999999Au64]
}

/// Upper parameter bounds of gr4j: x1 = 1500, x2 = 3, x3 = 400, x4 = 10.
pub open spec fn gr4j_upper() -> Seq<u64> {
    seq![0x4097700000000000u64, 0x4008000000000000u64, 0x4079000000000000u64, 0x4024000000000000u64]
}

/// Bound midpoints of gr4j, which are also its defaults:
/// x1 = 755, x2 = -1, x3 = 205, x4 = 5.4.
pub open spec fn gr4j_midpoints() -> Seq<u64> {
    seq![0x4087980000000000u64, 0xBFF0000000000000u64, 0x4069A00000000000u64, 0x401599999999999Au64]
}

/// Lower parameter bounds of cemaneige: ctg = 0, kf = 0, qnbv = 50.
pub open spec fn cemaneige_lower() -> Seq<u64> {
    seq![0x0000000000000000u64, 0x0000000000000000u64, 0x4049000000000000u64]
}

/// Upper parameter bounds of cemaneige: ctg = 1, kf = 20, qnbv = 800.
pub open spec fn cemaneige_upper() -> Seq<u64> {
    seq![0x3FF0000000000000u64, 0x4034000000000000u64, 0x4089000000000000u64]
}

/// Bound midpoints of cemaneige: 0.5, 10, 425.
pub open spec fn cemaneige_midpoints() -> Seq<u64> {
    seq![0x3FE0000000000000u64, 0x4024000000000000u64, 0x407A900000000000u64]
}

/// Default parameters of cemaneige: ctg = 0.25, kf = 3.74, qnbv = 350.
pub open spec fn cemaneige_defaults() -> Seq<u64> {
    seq![0x3FD0000000000000u64, 0x400DEB851EB851ECu64, 0x4075E00000000000u64]
}

/// A resolved model: which simulators run, where the parameter vector is
/// split, and the parameter tables the optimizer works with.
#[derive(Debug)]
pub struct ModelInfo {
    pub runoff: RunoffKind,
    pub snow: Option<SnowKind>,
    /// How many leading parameters belong to the snow module (0 without one).
    pub n_snow_params: usize,
    /// Total parameter count.
    pub n_params: usize,
    pub lower: Vec<u64>,
    pub upper: Vec<u64>,
    pub defaults: Vec<u64>,
    pub midpoints: Vec<u64>,
}

/// Well-formedness of a resolved model: the four tables share the parameter
/// count, the snow slice is a prefix, each bound pair is IEEE-ordered, and
/// defaults and midpoints lie within their bounds.
pub open spec fn model_wf(m: &ModelInfo) -> bool {
    &&& m.lower@.len() == m.n_params
    &&& m.upper@.len() == m.n_params
    &&& m.defaults@.len() == m.n_params
    &&& m.midpoints@.len() == m.n_params
    &&& m.n_snow_params <= m.n_params
    &&& forall|i: int|
        0 <= i < m.n_params ==> spec_le(#[trigger] m.lower@[i], m.upper@[i])
    &&& forall|i: int|
        0 <= i < m.n_params ==> in_interval(m.lower@[i], m.upper@[i], #[trigger] m.defaults@[i])
    &&& forall|i: int|
        0 <= i < m.n_params ==> in_interval(m.lower@[i], m.upper@[i], #[trigger] m.midpoints@[i])
}

fn gr4j_lower_vec() -> (r: Vec<u64>)
    ensures
        r@ == gr4j_lower(),
{
    let mut v: Vec<u64> = Vec::new();
    v.push(0x4024000000000000);
    v.push(0xC014000000000000);
    v.push(0x4024000000000000);
    v.push(0x3FE999999999999A);
    proof {
        assert(v@ =~= gr4j_lower());
    }
    v
}

fn gr4j_upper_vec() -> (r: Vec<u64>)
    ensures
        r@ == gr4j_upper(),
{
    let mut v: Vec<u64> = Vec::new();
    v.push(0x4097700000000000);
    v.push(0x4008000000000000);
    v.push(0x4079000000000000);
    v.push(0x4024000000000000);
    proof {
        assert(v@ =~= gr4j_upper());
    }
    v
}

fn gr4j_midpoints_vec() -> (r: Vec<u64>)
    ensures
        r@ == gr4j_midpoints(),
{
    let mut v: Vec<u64> = Vec::new();
    v.push(0x4087980000000000);
    v.push(0xBFF0000000000000);
    v.push(0x4069A00000000000);
    v.push(0x401599999999999A);
    proof {
        assert(v@ =~= gr4j_midpoints());
    }
    v
}

fn cemaneige_lower_vec() -> (r: Vec<u64>)
    ensures
        r@ == cemaneige_lower(),
{
    let mut v: Vec<u64> = Vec::new();
    v.push(0x0000000000000000);
    v.push(0x0000000000000000);
    v.push(0x4049000000000000);
    proof {
        assert(v@ =~= cemaneige_lower());
    }
    v
}

fn cemaneige_upper_vec() -> (r: Vec<u64>)
    ensures
        r@ == cemaneige_upper(),
{
    let mut v: Vec<u64> = Vec::new();
    v.push(0x3FF0000000000000);
    v.push(0x4034000000000000);
    v.push(0x4089000000000000);
    proof {
        assert(v@ =~= cemaneige_upper());
    }
    v
}

fn cemaneige_midpoints_vec() -> (r: Vec<u64>)
    ensures
        r@ == cemaneige_midpoints(),
{
    let mut v: Vec<u64> = Vec::new();
    v.push(0x3FE0000000000000);
    v.push(0x4024000000000000);
    v.push(0x407A900000000000);
    proof {
        assert(v@ =~= cemaneige_midpoints());
    }
    v
}

fn cemaneige_defaults_vec() -> (r: Vec<u64>)
    ensures
        r@ == cemaneige_defaults(),
{
    let mut v: Vec<u64> = Vec::new();
    v.push(0x3FD0000000000000);
    v.push(0x400DEB851EB851EC);
    v.push(0x4075E00000000000);
    proof {
        assert(v@ =~= cemaneige_defaults());
    }
    v
}

/// The gr4j bound pairs are IEEE-ordered with defaults and midpoints inside.
proof fn lemma_gr4j_tables()
    ensures
        forall|i: int| 0 <= i < 4 ==> spec_le(#[trigger] gr4j_lower()[i], gr4j_upper()[i]),
        forall|i: int|
            0 <= i < 4 ==> in_interval(gr4j_lower()[i], gr4j_upper()[i], #[trigger] gr4j_midpoints()[i]),
{
    assert forall|i: int| 0 <= i < 4 implies spec_le(#[trigger] gr4j_lower()[i], gr4j_upper()[i])
        && in_interval(gr4j_lower()[i], gr4j_upper()[i], gr4j_midpoints()[i]) by {
        assert(i == 0 || i == 1 || i == 2 || i == 3);
    }
}

/// The cemaneige bound pairs are IEEE-ordered with defaults and midpoints
/// inside.
proof fn lemma_cemaneige_tables()
    ensures
        forall|i: int| 0 <= i < 3 ==> spec_le(#[trigger] cemaneige_lower()[i], cemaneige_upper()[i]),
        forall|i: int|
            0 <= i < 3 ==> in_interval(
                cemaneige_lower()[i],
                cemaneige_upper()[i],
                #[trigger] cemaneige_midpoints()[i],
            ),
        forall|i: int|
            0 <= i < 3 ==> in_interval(
                cemaneige_lower()[i],
                cemaneige_upper()[i],
                #[trigger] cemaneige_defaults()[i],
            ),
{
    assert forall|i: int| 0 <= i < 3 implies spec_le(#[trigger] cemaneige_lower()[i],
        cemaneige_upper()[i]) && in_interval(cemaneige_lower()[i], cemaneige_upper()[i],
        cemaneige_midpoints()[i]) && in_interval(cemaneige_lower()[i], cemaneige_upper()[i],
        cemaneige_defaults()[i]) by {
        assert(i == 0 || i == 1 || i == 2);
    }
}

/// Resolves the rainfall-runoff model alone: gr4j, four parameters, defaults
/// at the bound midpoints.
fn gr4j_info() -> (r: ModelInfo)
    ensures
        r.runoff == RunoffKind::Gr4j,
        r.snow is None,
        r.n_snow_params == 0,
        r.n_params == 4,
        r.lower@ == gr4j_lower(),
        r.upper@ == gr4j_upper(),
        r.defaults@ == gr4j_midpoints(),
        r.midpoints@ == gr4j_midpoints(),
        model_wf(&r),
{
    let r = ModelInfo {
        runoff: RunoffKind::Gr4j,
        snow: None,
        n_snow_params: 0,
        n_params: 4,
        lower: gr4j_lower_vec(),
        upper: gr4j_upper_vec(),
        defaults: gr4j_midpoints_vec(),
        midpoints: gr4j_midpoints_vec(),
    };
    proof {
        lemma_gr4j_tables();
    }
    r
}

/// Resolves the chained model: cemaneige feeding gr4j, seven parameters with
/// the three snow parameters first.
fn composed_info() -> (r: ModelInfo)
    ensures
        r.runoff == RunoffKind::Gr4j,
        r.snow == Some(SnowKind::Cemaneige),
        r.n_snow_params == 3,
        r.n_params == 7,
        r.lower@ == cemaneige_lower() + gr4j_lower(),
        r.upper@ == cemaneige_upper() + gr4j_upper(),
        r.defaults@ == cemaneige_defaults() + gr4j_midpoints(),
        r.midpoints@ == cemaneige_midpoints() + gr4j_midpoints(),
        model_wf(&r),
{
    let mut lower = cemaneige_lower_vec();
    let mut gl = gr4j_lower_vec();
    lower.append(&mut gl);
    let mut upper = cemaneige_upper_vec();
    let mut gu = gr4j_upper_vec();
    upper.append(&mut gu);
    let mut defaults = cemaneige_defaults_vec();
    let mut gd = gr4j_midpoints_vec();
    defaults.append(&mut gd);
    let mut midpoints = cemaneige_midpoints_vec();
    let mut gm = gr4j_midpoints_vec();
    midpoints.append(&mut gm);
    let r = ModelInfo {
        runoff: RunoffKind::Gr4j,
        snow: Some(SnowKind::Cemaneige),
        n_snow_params: 3,
        n_params: 7,
        lower,
        upper,
        defaults,
        midpoints,
    };
    proof {
        lemma_gr4j_tables();
        lemma_cemaneige_tables();
        assert forall|i: int| 0 <= i < 7 implies spec_le(#[trigger] r.lower@[i], r.upper@[i])
            && in_interval(r.lower@[i], r.upper@[i], r.defaults@[i]) && in_interval(
            r.lower@[i],
            r.upper@[i],
            r.midpoints@[i],
        ) by {
            if i < 3 {
                assert(r.lower@[i] == cemaneige_lower()[i]);
                assert(r.upper@[i] == cemaneige_upper()[i]);
                assert(r.defaults@[i] == cemaneige_defaults()[i]);
                assert(r.midpoints@[i] == cemaneige_midpoints()[i]);
            } else {
                assert(r.lower@[i] == gr4j_lower()[i - 3]);
                assert(r.upper@[i] == gr4j_upper()[i - 3]);
                assert(r.defaults@[i] == gr4j_midpoints()[i - 3]);
                assert(r.midpoints@[i] == gr4j_midpoints()[i - 3]);
            }
        }
    }
    r
}

/// Resolves model names to a composed model description. The snow name, if
/// given, is looked up first; an unknown name is rejected with
/// `UnknownModel` carrying that name.
pub fn resolve(climate_model: &str, snow_model: Option<&str>) -> (r: Result<ModelInfo, Error>)
    ensures
        snow_model matches Some(s) ==> s@ != "cemaneige"@ ==> (r matches Err(e) && e matches
            Error::UnknownModel(n) && n@ == s@),
        snow_model matches Some(s) ==> s@ == "cemaneige"@ && climate_model@ != "gr4j"@ ==> (
        r matches Err(e) && e matches Error::UnknownModel(n) && n@ == climate_model@),
        snow_model is None && climate_model@ != "gr4j"@ ==> (r matches Err(e) && e matches
            Error::UnknownModel(n) && n@ == climate_model@),
        snow_model is None && climate_model@ == "gr4j"@ ==> (r matches Ok(m) && m.runoff
            == RunoffKind::Gr4j && m.snow is None && m.n_snow_params == 0 && m.n_params == 4
            && m.lower@ == gr4j_lower() && m.upper@ == gr4j_upper() && m.defaults@
            == gr4j_midpoints() && m.midpoints@ == gr4j_midpoints() && model_wf(&m)),
        snow_model matches Some(s) ==> s@ == "cemaneige"@ && climate_model@ == "gr4j"@ ==> (
        r matches Ok(m) && m.runoff == RunoffKind::Gr4j && m.snow == Some(SnowKind::Cemaneige)
            && m.n_snow_params == 3 && m.n_params == 7 && m.lower@ == cemaneige_lower()
            + gr4j_lower() && m.upper@ == cemaneige_upper() + gr4j_upper() && m.defaults@
            == cemaneige_defaults() + gr4j_midpoints() && m.midpoints@ == cemaneige_midpoints()
            + gr4j_midpoints() && model_wf(&m)),
{
    match snow_model {
        Some(s) => {
            if !str_eq(s, "cemaneige") {
                return Err(Error::UnknownModel(s.to_owned()));
            }
            if !str_eq(climate_model, "gr4j") {
                return Err(Error::UnknownModel(climate_model.to_owned()));
            }
            Ok(composed_info())
        },
        None => {
            if !str_eq(climate_model, "gr4j") {
                return Err(Error::UnknownModel(climate_model.to_owned()));
            }
            Ok(gr4j_info())
        },
    }
}

/// Splits a parameter vector at the snow/runoff boundary, rejecting a vector
/// of the wrong length with `ParamsMismatch`.
pub fn split_params(m: &ModelInfo, params: &Vec<u64>) -> (r: Result<(Vec<u64>, Vec<u64>), Error>)
    requires
        model_wf(m),
    ensures
        params@.len() == m.n_params ==> (r matches Ok(p) && p.0@ == params@.subrange(
            0,
            m.n_snow_params as int,
        ) && p.1@ == params@.subrange(m.n_snow_params as int, m.n_params as int)),
        params@.len() != m.n_params ==> (r matches Err(e) && e matches Error::ParamsMismatch(
            exp,
            got,
        ) && exp == m.n_params && got == params@.len()),
{
    if params.len() != m.n_params {
        return Err(Error::ParamsMismatch(m.n_params, params.len()));
    }
    let mut snow_part: Vec<u64> = Vec::new();
    let mut i: usize = 0;
    while i < m.n_snow_params
        invariant
            0 <= i <= m.n_snow_params,
            m.n_snow_params <= m.n_params,
            params@.len() == m.n_params,
            snow_part@ =~= params@.subrange(0, i as int),
        decreases m.n_snow_params - i,
    {
        snow_part.push(params[i]);
        i += 1;
    }
    let mut runoff_part: Vec<u64> = Vec::new();
    let mut j: usize = m.n_snow_params;
    while j < m.n_params
        invariant
            m.n_snow_params <= j <= m.n_params,
            params@.len() == m.n_params,
            runoff_part@ =~= params@.subrange(m.n_snow_params as int, j as int),
        decreases m.n_params - j,
    {
        runoff_part.push(params[j]);
        j += 1;
    }
    proof {
        assert(snow_part@ =~= params@.subrange(0, m.n_snow_params as int));
        assert(runoff_part@ =~= params@.subrange(m.n_snow_params as int, m.n_params as int));
    }
    Ok((snow_part, runoff_part))
}

} // verus!
