//! Translation support for variables: static links.
use vstd::prelude::*;
use crate::tree::{self, Temp, FRAME_POINTER};
use super::static_link;

verus! {

/// The static link for a function at `nesting_depth`: the frame pointer,
/// followed once per enclosing level.
pub fn generate_static_link(nesting_depth: i64) -> (r: tree::Exp)
    ensures
        r@ == static_link(nesting_depth as int),
{
    let mut link = tree::Exp::TEMP(Temp { id: FRAME_POINTER });
    let mut k: i64 = 0;
    while k < nesting_depth
        invariant
            0 <= k,
            nesting_depth <= 0 ==> k == 0,
            nesting_depth > 0 ==> k <= nesting_depth,
            link@ == static_link(k as int),
        decreases nesting_depth - k,
    {
        k = k + 1;
        link = tree::Exp::MEM(Box::new(link));
    }
    link
}

} // verus!
