//! The objective metric driving the competitive evolution.

use vstd::prelude::*;
use crate::errors::Error;

verus! {

/// The metric a calibration optimizes. RMSE is minimized; NSE and KGE are
/// maximized.
#[derive(Debug, Clone, Copy, PartialEq, Eq, Structural)]
pub enum Objective {
    Rmse,
    Nse,
    Kge,
}

/// The characters spell "rmse", each letter in either case.
pub open spec fn spells_rmse(s: Seq<char>) -> bool {
    &&& s.len() == 4
    &&& (s[0] == 'r' || s[0] == 'R')
    &&& (s[1] == 'm' || s[1] == 'M')
    &&& (s[2] == 's' || s[2] == 'S')
    &&& (s[3] == 'e' || s[3] == 'E')
}

/// The characters spell "nse", each letter in either case.
pub open spec fn spells_nse(s: Seq<char>) -> bool {
    &&& s.len() == 3
    &&& (s[0] == 'n' || s[0] == 'N')
    &&& (s[1] == 's' || s[1] == 'S')
    &&& (s[2] == 'e' || s[2] == 'E')
}

/// The characters spell "kge", each letter in either case.
pub open spec fn spells_kge(s: Seq<char>) -> bool {
    &&& s.len() == 3
    &&& (s[0] == 'k' || s[0] == 'K')
    &&& (s[1] == 'g' || s[1] == 'G')
    &&& (s[2] == 'e' || s[2] == 'E')
}

impl Objective {
    /// Parses an objective name, ignoring ASCII case. Any other name is
    /// rejected with `UnknownObjective` carrying the name as given.
    pub fn from_str(s: &str) -> (r: Result<Objective, Error>)
        ensures
            spells_rmse(s@) ==> (r matches Ok(o) && o == Objective::Rmse),
            spells_nse(s@) ==> (r matches Ok(o) && o == Objective::Nse),
            spells_kge(s@) ==> (r matches Ok(o) && o == Objective::Kge),
            !spells_rmse(s@) && !spells_nse(s@) && !spells_kge(s@) ==> (r matches Err(e)
                && e matches Error::UnknownObjective(n) && n@ == s@),
    {
        let n = s.unicode_len();
        if n == 4 {
            let c0 = s.get_char(0);
            let c1 = s.get_char(1);
            let c2 = s.get_char(2);
            let c3 = s.get_char(3);
            if (c0 == 'r' || c0 == 'R') && (c1 == 'm' || c1 == 'M') && (c2 == 's' || c2 == 'S')
                && (c3 == 'e' || c3 == 'E') {
                return Ok(Objective::Rmse);
            }
        } else if n == 3 {
            let c0 = s.get_char(0);
            let c1 = s.get_char(1);
            let c2 = s.get_char(2);
            if (c1 == 's' || c1 == 'S') && (c2 == 'e' || c2 == 'E') && (c0 == 'n' || c0 == 'N') {
                return Ok(Objective::Nse);
            }
            if (c1 == 'g' || c1 == 'G') && (c2 == 'e' || c2 == 'E') && (c0 == 'k' || c0 == 'K') {
                return Ok(Objective::Kge);
            }
        }
        Err(Error::UnknownObjective(s.to_owned()))
    }

    /// The column of this objective in an objective row, and whether the
    /// column is minimized: RMSE is column 0 and minimized, NSE column 1 and
    /// KGE column 2 are maximized.
    pub fn column(&self) -> (r: (usize, bool))
        ensures
            *self == Objective::Rmse ==> r == (0usize, true),
            *self == Objective::Nse ==> r == (1usize, false),
            *self == Objective::Kge ==> r == (2usize, false),
    {
        match self {
            Objective::Rmse => (0, true),
            Objective::Nse => (1, false),
            Objective::Kge => (2, false),
        }
    }
}

} // verus!
