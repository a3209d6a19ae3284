//! Deciding whether an observer runs for a trigger.
use vstd::prelude::*;

verus! {

/// Decides whether an observer runs for the trigger `trigger_id`, when the
/// last trigger it handled is `last_trigger_id` and its run conditions gave
/// the verdicts `conditions`: an observer handles each trigger once, and
/// runs only when every condition holds. Returns the decision and the
/// observer's new last handled trigger.
pub fn observer_should_run(last_trigger_id: u32, trigger_id: u32, conditions: &Vec<bool>) -> (r: (bool, u32))
    ensures
        r.0 == (last_trigger_id != trigger_id && forall|i: int| 0 <= i < conditions@.len() ==> #[trigger] conditions@[i]),
        r.1 == trigger_id,
{
    if last_trigger_id == trigger_id {
        return (false, last_trigger_id);
    }
    let mut should_run = true;
    let mut i: usize = 0;
    while i < conditions.len()
        invariant
            i <= conditions@.len(),
            should_run == forall|j: int| 0 <= j < i ==> #[trigger] conditions@[j],
        decreases conditions@.len() - i,
    {
        should_run = should_run && conditions[i];
        i = i + 1;
    }
    (should_run, trigger_id)
}

} // verus!
