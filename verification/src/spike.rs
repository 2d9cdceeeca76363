//! The spike's checks of what the Git library offers, and its decision.
use crate::cli::SpikeFixture;
use crate::json::{CheckStatus, SpikeCheck, SpikeDecision, SpikeOutput};
use vstd::prelude::*;

verus! {

/// The name of a spike fixture.
pub open spec fn fixture_name_spec(f: SpikeFixture) -> Seq<char> {
    match f {
        SpikeFixture::Linear => "linear"@,
        SpikeFixture::EarlyFeatureMerge => "early-feature-merge"@,
        SpikeFixture::MergeConflict => "merge-conflict"@,
        SpikeFixture::MultiParentAmbiguous => "multi-parent-ambiguous"@,
        SpikeFixture::RenameMerge => "rename-merge"@,
        SpikeFixture::DeletionMerge => "deletion-merge"@,
    }
}

/// The name of a spike fixture.
pub fn fixture_name(fixture: &SpikeFixture) -> (name: &'static str)
    ensures
        name@ == fixture_name_spec(*fixture),
{
    match fixture {
        SpikeFixture::Linear => "linear",
        SpikeFixture::EarlyFeatureMerge => "early-feature-merge",
        SpikeFixture::MergeConflict => "merge-conflict",
        SpikeFixture::MultiParentAmbiguous => "multi-parent-ambiguous",
        SpikeFixture::RenameMerge => "rename-merge",
        SpikeFixture::DeletionMerge => "deletion-merge",
    }
}

/// A check that passed when `passed` holds, with no difference recorded.
pub fn spike_check(name: &str, passed: bool) -> (c: SpikeCheck)
    ensures
        c.name@ == name@,
        c.status == (if passed {
            CheckStatus::Pass
        } else {
            CheckStatus::Fail
        }),
        c.differences@.len() == 0,
{
    SpikeCheck {
        name: String::from_str(name),
        status: if passed {
            CheckStatus::Pass
        } else {
            CheckStatus::Fail
        },
        differences: Vec::new(),
    }
}

/// The spike's decision: the Git library alone suffices when every check passed.
pub open spec fn decision_spec(checks: Seq<SpikeCheck>) -> SpikeDecision {
    if forall|k: int| 0 <= k < checks.len() ==> (#[trigger] checks[k]).status == CheckStatus::Pass {
        SpikeDecision::GixOnly
    } else {
        SpikeDecision::AlgorithmAdjustmentRequired
    }
}

/// Records the checks' decision in the output.
pub fn decide(output: &mut SpikeOutput)
    ensures
        final(output).decision == decision_spec(old(output).checks@),
        final(output).checks@ == old(output).checks@,
        final(output).version == old(output).version,
        final(output).fixture == old(output).fixture,
{
    let mut all = true;
    let mut i: usize = 0;
    while i < output.checks.len()
        invariant
            i <= output.checks@.len(),
            all == forall|k: int| 0 <= k < i ==> (#[trigger] output.checks@[k]).status == CheckStatus::Pass,
        decreases output.checks.len() - i,
    {
        if output.checks[i].status != CheckStatus::Pass {
            all = false;
        }
        i += 1;
    }
    output.decision = if all {
        SpikeDecision::GixOnly
    } else {
        SpikeDecision::AlgorithmAdjustmentRequired
    };
}

} // verus!
