//! A suite: the scenarios of a directory, run one after the other.
use vstd::prelude::*;

use crate::text::ends_with;

verus! {

/// A file name that holds a scenario: it ends in `.yml` or `.yaml`.
pub open spec fn is_scenario_name(name: Seq<char>) -> bool {
    ||| (name.len() >= 4 && name.subrange(name.len() - 4, name.len() as int) == ".yml"@)
    ||| (name.len() >= 5 && name.subrange(name.len() - 5, name.len() as int) == ".yaml"@)
}

/// Whether the file `name` holds a scenario.
pub fn is_scenario_file(name: &str) -> (b: bool)
    ensures
        b == is_scenario_name(name@),
{
    proof {
        reveal_strlit(".yml");
        reveal_strlit(".yaml");
    }
    ends_with(name, ".yml") || ends_with(name, ".yaml")
}

/// A suite passes when every one of its scenarios passed.
pub fn suite_passed(results: &Vec<bool>) -> (b: bool)
    ensures
        b == forall|i: int| 0 <= i < results@.len() ==> results@[i],
{
    let mut i: usize = 0;
    while i < results.len()
        invariant
            i <= results.len(),
            forall|j: int| 0 <= j < i ==> results@[j],
        decreases results.len() - i,
    {
        if !results[i] {
            return false;
        }
        i = i + 1;
    }
    true
}

} // verus!
