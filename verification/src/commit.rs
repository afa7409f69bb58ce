//! An abstract model of the atomic commit protocol the writer's caller must
//! follow: stage the full new content in a temporary file that lives in the
//! destination's directory, then replace the destination in one step. The
//! model shows why the destination can never be seen partially written: an
//! interrupted commit has not touched it at all, and a completed commit
//! publishes the staged bytes whole.

use vstd::prelude::*;

verus! {

/// One step of the commit protocol, acting on a directory modelled as a map
/// from file name to content: any number of writes to the staging file,
/// then a single replace of the destination by the staging file.
pub enum CommitStep {
    StageWrite(Seq<u8>),
    Replace,
}

/// The directory after one step. A stage write only rebinds the staging
/// file; the replace moves the staged content onto the destination in one
/// operation.
pub open spec fn apply_step(
    files: Map<Seq<char>, Seq<u8>>,
    staging: Seq<char>,
    dest: Seq<char>,
    s: CommitStep,
) -> Map<Seq<char>, Seq<u8>> {
    match s {
        CommitStep::StageWrite(bytes) => files.insert(staging, bytes),
        CommitStep::Replace => if files.contains_key(staging) {
            files.remove(staging).insert(dest, files[staging])
        } else {
            files
        },
    }
}

/// The directory after a whole sequence of steps.
pub open spec fn apply_steps(
    files: Map<Seq<char>, Seq<u8>>,
    staging: Seq<char>,
    dest: Seq<char>,
    steps: Seq<CommitStep>,
) -> Map<Seq<char>, Seq<u8>>
    decreases steps.len(),
{
    if steps.len() == 0 {
        files
    } else {
        apply_step(
            apply_steps(files, staging, dest, steps.drop_last()),
            staging,
            dest,
            steps.last(),
        )
    }
}

/// Atomicity, the interrupted half: a commit that stops before its replace
/// step — however many staging writes it made, partial or not — leaves the
/// destination file observably unchanged.
pub proof fn lemma_interrupted_commit_keeps_destination(
    files: Map<Seq<char>, Seq<u8>>,
    staging: Seq<char>,
    dest: Seq<char>,
    steps: Seq<CommitStep>,
)
    requires
        staging != dest,
        forall|i: int| 0 <= i < steps.len() ==> (#[trigger] steps[i]) is StageWrite,
    ensures
        apply_steps(files, staging, dest, steps).contains_key(dest) == files.contains_key(dest),
        files.contains_key(dest) ==> apply_steps(files, staging, dest, steps)[dest]
            == files[dest],
    decreases steps.len(),
{
    if steps.len() > 0 {
        assert forall|i: int|
            0 <= i < steps.drop_last().len() implies (#[trigger] steps.drop_last()[i])
            is StageWrite by {
            assert(steps.drop_last()[i] == steps[i]);
        }
        lemma_interrupted_commit_keeps_destination(files, staging, dest, steps.drop_last());
        assert(steps[steps.len() - 1] is StageWrite);
    }
}

/// Atomicity, the completed half: after the staged content is written in
/// full and the replace step runs, the destination holds exactly the staged
/// bytes — never a mixture of old and new.
pub proof fn lemma_completed_commit_publishes_whole(
    files: Map<Seq<char>, Seq<u8>>,
    staging: Seq<char>,
    dest: Seq<char>,
    writes: Seq<CommitStep>,
    content: Seq<u8>,
)
    requires
        staging != dest,
        forall|i: int| 0 <= i < writes.len() ==> (#[trigger] writes[i]) is StageWrite,
        writes.len() > 0,
        writes.last() == CommitStep::StageWrite(content),
    ensures
        apply_steps(files, staging, dest, writes.push(CommitStep::Replace)).contains_key(dest),
        apply_steps(files, staging, dest, writes.push(CommitStep::Replace))[dest] == content,
{
    let staged = apply_steps(files, staging, dest, writes);
    assert(writes.push(CommitStep::Replace).drop_last() =~= writes);
    assert(staged == apply_step(
        apply_steps(files, staging, dest, writes.drop_last()),
        staging,
        dest,
        writes.last(),
    ));
    assert(staged.contains_key(staging) && staged[staging] == content);
}

} // verus!
