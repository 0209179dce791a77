//! Thinking budgets as reasoning levels.
use vstd::prelude::*;
use vstd::string::*;

use crate::json::seen_text;

verus! {

/// The reasoning level for a thinking budget in tokens: -1 leaves the level to the provider,
/// 0 turns reasoning off, and a budget below -1 has no level.
pub open spec fn level_for(budget: int) -> Option<Seq<char>> {
    if budget < -1 {
        None
    } else if budget == -1 {
        Some("auto"@)
    } else if budget == 0 {
        Some("none"@)
    } else if budget <= 512 {
        Some("minimal"@)
    } else if budget <= 1024 {
        Some("low"@)
    } else if budget <= 8192 {
        Some("medium"@)
    } else if budget <= 24576 {
        Some("high"@)
    } else {
        Some("xhigh"@)
    }
}

/// The reasoning level for a thinking budget in tokens.
pub fn budget_to_level(budget: i64) -> (r: Option<&'static str>)
    ensures
        seen_text(r) == level_for(budget as int),
{
    if budget < -1 {
        None
    } else if budget == -1 {
        Some("auto")
    } else if budget == 0 {
        Some("none")
    } else if budget <= 512 {
        Some("minimal")
    } else if budget <= 1024 {
        Some("low")
    } else if budget <= 8192 {
        Some("medium")
    } else if budget <= 24576 {
        Some("high")
    } else {
        Some("xhigh")
    }
}

} // verus!
