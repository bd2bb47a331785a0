//! The order of the pipeline's steps.

use vstd::prelude::*;

verus! {

/// A step of the pipeline. Each stage resolves the workspace root for
/// itself.
#[derive(Clone, Copy, Debug, PartialEq, Eq, Structural)]
pub enum Step {
    /// Resolve the workspace root for the protobuf stage.
    LocateForProto,
    /// Enumerate the protobuf schemas and run the generator on them.
    CompileProtos,
    /// Resolve the workspace root for the Thrift stage.
    LocateForThrift,
    /// Run the Thrift compiler on the entry schema.
    RunThrift,
    /// Rewrite the imports of the emitted Thrift modules.
    RewriteImports,
    /// Everything was produced.
    Done,
    /// A step failed; nothing further runs.
    Aborted,
}

/// The step that follows `step`, given whether `step` succeeded. A failure
/// ends the pipeline at once.
pub open spec fn step_after(step: Step, succeeded: bool) -> Step {
    match step {
        Step::Done => Step::Done,
        Step::Aborted => Step::Aborted,
        _ => if !succeeded {
            Step::Aborted
        } else {
            match step {
                Step::LocateForProto => Step::CompileProtos,
                Step::CompileProtos => Step::LocateForThrift,
                Step::LocateForThrift => Step::RunThrift,
                Step::RunThrift => Step::RewriteImports,
                _ => Step::Done,
            }
        },
    }
}

/// The step that the pipeline is at after the outcomes `outcomes`, one for
/// each step that ran, when it started at `step`.
pub open spec fn step_after_all(step: Step, outcomes: Seq<bool>) -> Step
    decreases outcomes.len(),
{
    if outcomes.len() == 0 {
        step
    } else {
        step_after(step_after_all(step, outcomes.drop_last()), outcomes.last())
    }
}

/// The step that the pipeline begins with.
pub fn first_step() -> (step: Step)
    ensures
        step == Step::LocateForProto,
{
    Step::LocateForProto
}

/// The step that follows `step`.
pub fn advance(step: Step, succeeded: bool) -> (next: Step)
    ensures
        next == step_after(step, succeeded),
        next == Step::RewriteImports <==> step == Step::RunThrift && succeeded,
{
    match step {
        Step::Done => Step::Done,
        Step::Aborted => Step::Aborted,
        _ => {
            if !succeeded {
                Step::Aborted
            } else {
                match step {
                    Step::LocateForProto => Step::CompileProtos,
                    Step::CompileProtos => Step::LocateForThrift,
                    Step::LocateForThrift => Step::RunThrift,
                    Step::RunThrift => Step::RewriteImports,
                    _ => Step::Done,
                }
            }
        },
    }
}

/// Once aborted, the pipeline stays aborted.
pub proof fn lemma_abort_is_final(outcomes: Seq<bool>)
    ensures
        step_after_all(Step::Aborted, outcomes) == Step::Aborted,
    decreases outcomes.len(),
{
    if outcomes.len() > 0 {
        lemma_abort_is_final(outcomes.drop_last());
    }
}

/// After a failed run of the Thrift compiler the imports are never rewritten,
/// whatever is reported afterwards.
pub proof fn lemma_failed_thrift_never_rewrites(outcomes: Seq<bool>)
    ensures
        step_after_all(step_after(Step::RunThrift, false), outcomes) != Step::RewriteImports,
{
    lemma_abort_is_final(outcomes);
}

/// The imports are rewritten only after the Thrift compiler has succeeded:
/// where the pipeline stands at the rewriting after some outcomes, the last
/// of them is the success of the Thrift compiler's run.
pub proof fn lemma_rewrite_follows_thrift(step: Step, outcomes: Seq<bool>)
    requires
        step != Step::RewriteImports,
        step_after_all(step, outcomes) == Step::RewriteImports,
    ensures
        outcomes.len() > 0,
        outcomes.last(),
        step_after_all(step, outcomes.drop_last()) == Step::RunThrift,
{
}

} // verus!
