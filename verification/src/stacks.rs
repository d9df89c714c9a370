//! The stack pages: the look of the mode tabs and what the distributed
//! view says it merged.

use vstd::prelude::*;

use crate::text::{owned, str_eq};

verus! {

/// The classes of a mode tab, filled when it is the active one.
pub fn stack_tab(active: bool) -> (r: &'static str)
    ensures
        r@ == (if active {
            "rounded-lg bg-blue-600 px-3 py-1.5 text-xs font-medium text-white"@
        } else {
            "rounded-lg border border-gray-300 bg-white px-3 py-1.5 text-xs text-gray-700"@
        }),
{
    if active {
        "rounded-lg bg-blue-600 px-3 py-1.5 text-xs font-medium text-white"
    } else {
        "rounded-lg border border-gray-300 bg-white px-3 py-1.5 text-xs text-gray-700"
    }
}

/// The subtitle of the distributed stack view: which frames are merged and
/// from where.
pub fn distributed_stack_subtitle(mode: &str, cluster: bool) -> (r: String)
    ensures
        r@ == "Identical "@ + (if mode@ == "py"@ { "Python"@ } else { "mixed-language"@ })
            + " call paths merged by sample count · "@ + (if cluster { "cluster fan-out"@ } else { "this node"@ }) + "."@,
{
    let mut s = owned("Identical ");
    s.append(if str_eq(mode, "py") { "Python" } else { "mixed-language" });
    s.append(" call paths merged by sample count · ");
    s.append(if cluster { "cluster fan-out" } else { "this node" });
    s.append(".");
    s
}

} // verus!
