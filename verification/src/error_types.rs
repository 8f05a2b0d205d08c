//! Error values shared across the library.

use vstd::prelude::*;
use crate::global_paths::{CfgPath, CfgPathV};

verus! {

/// Raised when expected filesystem paths are absent; carries the paths that
/// were missing.
#[derive(Debug)]
pub struct PathsError {
    pub missingpaths: Vec<CfgPath>,
}

/// The description of one missing path, as a line of the error message.
pub open spec fn missing_line_spec(p: CfgPathV) -> Seq<char> {
    "- "@ + p.path
}

/// The error message's lines for a list of missing paths.
pub open spec fn missing_lines_spec(ps: Seq<CfgPathV>) -> Seq<char>
    decreases ps.len(),
{
    if ps.len() == 0 {
        Seq::empty()
    } else {
        missing_lines_spec(ps.drop_last()) + missing_line_spec(ps.last())
    }
}

impl PathsError {
    /// The operator-facing description: the header, then one entry per
    /// missing path.
    pub fn message(&self) -> (r: String)
        ensures
            r@ == "Following paths do not exist."@ + missing_lines_spec(
                self.missingpaths@.map_values(|p: CfgPath| p@),
            ),
    {
        let ghost psv = self.missingpaths@.map_values(|p: CfgPath| p@);
        let mut r = "Following paths do not exist.".to_string();
        let n = self.missingpaths.len();
        let mut i: usize = 0;
        while i < n
            invariant
                n == self.missingpaths.len(),
                0 <= i <= n,
                psv == self.missingpaths@.map_values(|p: CfgPath| p@),
                r@ == "Following paths do not exist."@ + missing_lines_spec(
                    psv.subrange(0, i as int),
                ),
            decreases n - i,
        {
            proof {
                assert(psv.subrange(0, i + 1).drop_last() =~= psv.subrange(0, i as int));
                assert(psv.subrange(0, i + 1).last() == psv[i as int]);
            }
            r.append("- ");
            r.append(self.missingpaths[i].path.as_str());
            proof {
                assert(r@ =~= "Following paths do not exist."@ + missing_lines_spec(
                    psv.subrange(0, i + 1),
                ));
            }
            i = i + 1;
        }
        proof {
            assert(psv.subrange(0, n as int) =~= psv);
        }
        r
    }
}

} // verus!
