use vstd::prelude::*;

use crate::text::owned;

verus! {

#[derive(Debug, Clone, PartialEq, Eq)]
pub struct CanonicalTraceContext {
    pub idempotency_key: String,
    pub correlation_id: String,
    pub causation_id: Option<String>,
    pub traceparent: Option<String>,
    pub tracestate: Option<String>,
}

#[derive(Debug, Clone, PartialEq, Eq)]
pub enum ConnectorError {
    Normalize(String),
}

impl ConnectorError {
    /// The error's text: `normalization failed: ` and the reason.
    pub fn message(&self) -> (r: String)
        ensures
            match self {
                ConnectorError::Normalize(reason) => r@ == "normalization failed: "@ + reason@,
            },
    {
        match self {
            ConnectorError::Normalize(reason) => {
                let mut text = owned("normalization failed: ");
                text.append(reason.as_str());
                text
            },
        }
    }
}

#[derive(Debug, Clone, Copy, PartialEq, Eq, Structural)]
pub struct ReplayBackfillTelemetry {
    pub total_events: u32,
    pub total_attempts: u32,
    pub first_attempt_failures: u32,
    pub recovered_events: u32,
    pub failed_events: u32,
    pub simulated_recovery_time_ms: u64,
    pub recovery_target_ms: u64,
    pub objective_met: bool,
}

#[derive(Debug, Clone, PartialEq, Eq)]
pub struct ReplayBackfillResult {
    pub hashes: Vec<String>,
    pub telemetry: ReplayBackfillTelemetry,
}

#[derive(Debug, Clone, PartialEq, Eq)]
pub struct CutoverCheckpoint {
    pub name: String,
    pub passed: bool,
}

#[derive(Debug, Clone, PartialEq, Eq)]
pub struct CutoverRehearsalResult {
    pub checkpoint_results: Vec<CutoverCheckpoint>,
    pub replay_objective_met: bool,
    pub rollback_validated: bool,
    pub passed: bool,
}

/// A checkpoint as plain values.
pub open spec fn checkpoint_view(c: CutoverCheckpoint) -> (Seq<char>, bool) {
    (c.name@, c.passed)
}

pub open spec fn checkpoint_views(s: Seq<CutoverCheckpoint>) -> Seq<(Seq<char>, bool)> {
    s.map_values(|c: CutoverCheckpoint| checkpoint_view(c))
}

/// The replay objective and the rollback checkpoint, then the extra ones.
pub open spec fn rehearsal_checkpoints(objective_met: bool, rollback_validated: bool, extra: Seq<CutoverCheckpoint>) -> Seq<(Seq<char>, bool)> {
    seq![("replay_recovery_objective"@, objective_met), ("rollback_checkpoint"@, rollback_validated)] + checkpoint_views(extra)
}

/// Adds the replay-objective and rollback checkpoints in front of the
/// others; the rehearsal passes when every checkpoint passes.
pub fn evaluate_cutover_rehearsal(
    replay_result: &ReplayBackfillResult,
    rollback_validated: bool,
    additional_checkpoints: &[CutoverCheckpoint],
) -> (r: CutoverRehearsalResult)
    ensures
        checkpoint_views(r.checkpoint_results@) == rehearsal_checkpoints(
            replay_result.telemetry.objective_met,
            rollback_validated,
            additional_checkpoints@,
        ),
        r.replay_objective_met == replay_result.telemetry.objective_met,
        r.rollback_validated == rollback_validated,
        r.passed == (forall|i: int|
            0 <= i < r.checkpoint_results@.len() ==> (#[trigger] r.checkpoint_results@[i]).passed),
        r.passed == (replay_result.telemetry.objective_met && rollback_validated && (forall|i: int|
            0 <= i < additional_checkpoints@.len() ==> (#[trigger] additional_checkpoints@[i]).passed)),
{
    let objective_met = replay_result.telemetry.objective_met;
    let mut checkpoints: Vec<CutoverCheckpoint> = Vec::new();
    checkpoints.push(CutoverCheckpoint { name: owned("replay_recovery_objective"), passed: objective_met });
    checkpoints.push(CutoverCheckpoint { name: owned("rollback_checkpoint"), passed: rollback_validated });
    let ghost head = checkpoints@;
    let mut i: usize = 0;
    while i < additional_checkpoints.len()
        invariant
            i <= additional_checkpoints.len(),
            head.len() == 2,
            checkpoints@.len() == i + 2,
            checkpoints@.subrange(0, 2) == head,
            forall|k: int| 0 <= k < i ==> checkpoint_view(#[trigger] checkpoints@[k + 2]) == checkpoint_view(additional_checkpoints@[k]),
        decreases additional_checkpoints.len() - i,
    {
        let c = &additional_checkpoints[i];
        let ghost before = checkpoints@;
        checkpoints.push(CutoverCheckpoint { name: c.name.clone(), passed: c.passed });
        assert(checkpoints@.subrange(0, 2) =~= before.subrange(0, 2));
        assert forall|k: int| 0 <= k < i + 1 implies checkpoint_view(#[trigger] checkpoints@[k + 2]) == checkpoint_view(additional_checkpoints@[k]) by {
            if k < i {
                assert(checkpoints@[k + 2] == before[k + 2]);
            }
        }
        i = i + 1;
    }
    let ghost all = checkpoints@;
    let mut passed = true;
    let mut j: usize = 0;
    while j < checkpoints.len()
        invariant
            j <= checkpoints.len(),
            checkpoints@ == all,
            passed == forall|k: int| 0 <= k < j ==> (#[trigger] checkpoints@[k]).passed,
        decreases checkpoints.len() - j,
    {
        if !checkpoints[j].passed {
            passed = false;
        }
        j = j + 1;
    }
    assert(j == all.len());
    assert(passed == (forall|k: int| 0 <= k < all.len() ==> (#[trigger] all[k]).passed));
    assert(checkpoint_views(all) =~= rehearsal_checkpoints(objective_met, rollback_validated, additional_checkpoints@)) by {
        assert(all[0] == head[0] && all[1] == head[1]);
        assert forall|k: int| 2 <= k < all.len() implies checkpoint_views(all)[k] == rehearsal_checkpoints(objective_met, rollback_validated, additional_checkpoints@)[k] by {
            assert(checkpoint_view(all[(k - 2) + 2]) == checkpoint_view(additional_checkpoints@[k - 2]));
        }
    }
    assert(passed == (objective_met && rollback_validated && forall|k: int|
        0 <= k < additional_checkpoints@.len() ==> (#[trigger] additional_checkpoints@[k]).passed)) by {
        assert(all[0] == head[0] && all[1] == head[1]);
        if passed {
            assert forall|k: int| 0 <= k < additional_checkpoints@.len() implies (#[trigger] additional_checkpoints@[k]).passed by {
                assert(checkpoint_view(all[k + 2]) == checkpoint_view(additional_checkpoints@[k]));
            }
        } else {
            let k = choose|k: int| 0 <= k < all.len() && !(#[trigger] all[k]).passed;
            if k >= 2 {
                assert(checkpoint_view(all[(k - 2) + 2]) == checkpoint_view(additional_checkpoints@[k - 2]));
            }
        }
    }
    let result = CutoverRehearsalResult {
        checkpoint_results: checkpoints,
        replay_objective_met: objective_met,
        rollback_validated,
        passed,
    };
    assert(result.checkpoint_results@ == all);
    assert(result.passed == (forall|k: int| 0 <= k < result.checkpoint_results@.len() ==> (#[trigger] result.checkpoint_results@[k]).passed));
    result
}

} // verus!
