//! The decisions of the durable-replace protocol: write the new file under a
//! sibling temporary path, sync it, rename it over the final path, then sync
//! the parent directory on a best-effort basis. Any failure before the rename
//! completes removes the temporary file and reports the first error. The
//! file-system work itself is done by the caller, one action at a time.
use vstd::prelude::*;

use crate::error::CoveError;

verus! {

/// The file-system work the protocol asks for next.
#[derive(Debug, Clone, Copy, PartialEq, Eq, Structural)]
pub enum ReplaceAction {
    /// Create the temporary file (it must not exist) and write the payload.
    WriteTemp,
    /// Flush the temporary file to stable storage.
    SyncTemp,
    /// Rename the temporary file over the final path.
    RenameIntoPlace,
    /// Flush the parent directory; its outcome is ignored.
    SyncParentDir,
    /// Remove the temporary file; its outcome is ignored.
    RemoveTemp,
}

/// Where a durable replace stands.
#[derive(Debug, Clone, PartialEq, Eq)]
pub enum ReplaceState {
    WriteTemp,
    SyncTemp,
    RenameIntoPlace,
    SyncParentDir,
    /// A step failed with this error; the temporary file is removed next.
    RemoveTemp(CoveError),
    /// The payload is at the final path.
    Published,
    /// The final path is untouched and the temporary file was removed.
    Failed(CoveError),
}

/// Whether the protocol has ended.
pub open spec fn is_finished(s: ReplaceState) -> bool {
    s is Published || s is Failed
}

/// The action that state `s` asks for, if any.
pub open spec fn spec_next_action(s: ReplaceState) -> Option<ReplaceAction> {
    match s {
        ReplaceState::WriteTemp => Some(ReplaceAction::WriteTemp),
        ReplaceState::SyncTemp => Some(ReplaceAction::SyncTemp),
        ReplaceState::RenameIntoPlace => Some(ReplaceAction::RenameIntoPlace),
        ReplaceState::SyncParentDir => Some(ReplaceAction::SyncParentDir),
        ReplaceState::RemoveTemp(_) => Some(ReplaceAction::RemoveTemp),
        _ => None,
    }
}

/// The state after the pending action of `s` ended with `outcome`: each
/// step that must succeed moves on when it does and turns to removing the
/// temporary file when it fails; the directory sync and the removal move on
/// whatever their outcome.
pub open spec fn spec_advance(s: ReplaceState, outcome: Result<(), CoveError>) -> ReplaceState {
    match s {
        ReplaceState::WriteTemp => match outcome {
            Ok(()) => ReplaceState::SyncTemp,
            Err(e) => ReplaceState::RemoveTemp(e),
        },
        ReplaceState::SyncTemp => match outcome {
            Ok(()) => ReplaceState::RenameIntoPlace,
            Err(e) => ReplaceState::RemoveTemp(e),
        },
        ReplaceState::RenameIntoPlace => match outcome {
            Ok(()) => ReplaceState::SyncParentDir,
            Err(e) => ReplaceState::RemoveTemp(e),
        },
        ReplaceState::SyncParentDir => ReplaceState::Published,
        ReplaceState::RemoveTemp(e) => ReplaceState::Failed(e),
        _ => s,
    }
}

impl ReplaceState {
    /// A replace that has not started: the temporary file is written first.
    pub fn start() -> (res: Self)
        ensures
            res == ReplaceState::WriteTemp,
    {
        ReplaceState::WriteTemp
    }

    /// The action to perform next, or `None` once the protocol has ended.
    pub fn next_action(&self) -> (res: Option<ReplaceAction>)
        ensures
            res == spec_next_action(*self),
            res is None <==> is_finished(*self),
    {
        match self {
            ReplaceState::WriteTemp => Some(ReplaceAction::WriteTemp),
            ReplaceState::SyncTemp => Some(ReplaceAction::SyncTemp),
            ReplaceState::RenameIntoPlace => Some(ReplaceAction::RenameIntoPlace),
            ReplaceState::SyncParentDir => Some(ReplaceAction::SyncParentDir),
            ReplaceState::RemoveTemp(_) => Some(ReplaceAction::RemoveTemp),
            ReplaceState::Published => None,
            ReplaceState::Failed(_) => None,
        }
    }

    /// Records the outcome of the pending action (see `spec_advance`).
    pub fn advance(self, outcome: Result<(), CoveError>) -> (res: Self)
        requires
            !is_finished(self),
        ensures
            res == spec_advance(self, outcome),
    {
        match self {
            ReplaceState::WriteTemp => match outcome {
                Ok(()) => ReplaceState::SyncTemp,
                Err(e) => ReplaceState::RemoveTemp(e),
            },
            ReplaceState::SyncTemp => match outcome {
                Ok(()) => ReplaceState::RenameIntoPlace,
                Err(e) => ReplaceState::RemoveTemp(e),
            },
            ReplaceState::RenameIntoPlace => match outcome {
                Ok(()) => ReplaceState::SyncParentDir,
                Err(e) => ReplaceState::RemoveTemp(e),
            },
            ReplaceState::SyncParentDir => ReplaceState::Published,
            ReplaceState::RemoveTemp(e) => ReplaceState::Failed(e),
            ReplaceState::Published => ReplaceState::Published,
            ReplaceState::Failed(e) => ReplaceState::Failed(e),
        }
    }

    /// The protocol's result once it has ended: `Ok` when published, the
    /// first error otherwise; `None` while actions remain.
    pub fn outcome(self) -> (res: Option<Result<(), CoveError>>)
        ensures
            self is Published ==> res == Some(Ok::<(), CoveError>(())),
            self matches ReplaceState::Failed(e) ==> res == Some(Err::<(), CoveError>(e)),
            !is_finished(self) ==> res is None,
    {
        match self {
            ReplaceState::Published => Some(Ok(())),
            ReplaceState::Failed(e) => Some(Err(e)),
            _ => None,
        }
    }
}

/// The state reached by feeding `outcomes` to the pending actions from `s`,
/// stopping once the protocol has ended.
pub open spec fn run_replace(s: ReplaceState, outcomes: Seq<Result<(), CoveError>>) -> ReplaceState
    decreases outcomes.len(),
{
    if is_finished(s) || outcomes.len() == 0 {
        s
    } else {
        run_replace(spec_advance(s, outcomes[0]), outcomes.drop_first())
    }
}

/// Whether the first `n` outcomes all succeeded.
pub open spec fn first_succeed(outcomes: Seq<Result<(), CoveError>>, n: int) -> bool {
    forall|k: int| 0 <= k < n ==> (#[trigger] outcomes[k]) is Ok
}

/// A durable replace ends within four actions, whatever they report. It
/// publishes exactly when writing, syncing and renaming the temporary file
/// all succeed; when one of them fails, the temporary file is removed next
/// and the replace fails with that first error, whatever the removal
/// reports.
pub proof fn lemma_replace_protocol(outcomes: Seq<Result<(), CoveError>>)
    requires
        outcomes.len() >= 4,
    ensures
        is_finished(run_replace(ReplaceState::WriteTemp, outcomes)),
        run_replace(ReplaceState::WriteTemp, outcomes) is Published <==> first_succeed(outcomes, 3),
        forall|k: int|
            0 <= k < 3 && first_succeed(outcomes, k) && (#[trigger] outcomes[k]) is Err ==> run_replace(
                ReplaceState::WriteTemp,
                outcomes,
            ) == ReplaceState::Failed(outcomes[k]->Err_0),
{
    let o = outcomes;
    let s1 = spec_advance(ReplaceState::WriteTemp, o[0]);
    let r1 = o.drop_first();
    let s2 = spec_advance(s1, r1[0]);
    let r2 = r1.drop_first();
    let s3 = spec_advance(s2, r2[0]);
    let r3 = r2.drop_first();
    let s4 = spec_advance(s3, r3[0]);
    let r4 = r3.drop_first();
    assert(r1[0] == o[1]);
    assert(r2[0] == o[2]);
    assert(r3[0] == o[3]);
    assert(run_replace(ReplaceState::WriteTemp, o) == run_replace(s1, r1));
    if !is_finished(s1) {
        assert(run_replace(s1, r1) == run_replace(s2, r2));
        if !is_finished(s2) {
            assert(run_replace(s2, r2) == run_replace(s3, r3));
            if !is_finished(s3) {
                assert(run_replace(s3, r3) == run_replace(s4, r4));
            }
        }
    }
    if first_succeed(o, 3) {
        assert(o[0] is Ok && o[1] is Ok && o[2] is Ok);
    }
}


/// The actions a replace asks for while `outcomes` are fed to it from `s`,
/// in order, until it ends.
pub open spec fn replace_actions(s: ReplaceState, outcomes: Seq<Result<(), CoveError>>) -> Seq<
    ReplaceAction,
>
    decreases outcomes.len(),
{
    if is_finished(s) || outcomes.len() == 0 {
        Seq::empty()
    } else {
        seq![spec_next_action(s)->0] + replace_actions(
            spec_advance(s, outcomes[0]),
            outcomes.drop_first(),
        )
    }
}

/// A durable replace asks for its work in a fixed order: writing, syncing
/// and renaming the temporary file, then syncing the parent directory when
/// all three succeed; when one of the three fails, it stops there and asks
/// to remove the temporary file, once, and nothing after that.
pub proof fn lemma_replace_action_order(outcomes: Seq<Result<(), CoveError>>)
    requires
        outcomes.len() >= 4,
    ensures
        first_succeed(outcomes, 3) ==> replace_actions(ReplaceState::WriteTemp, outcomes) == seq![
            ReplaceAction::WriteTemp,
            ReplaceAction::SyncTemp,
            ReplaceAction::RenameIntoPlace,
            ReplaceAction::SyncParentDir,
        ],
        forall|k: int|
            0 <= k < 3 && first_succeed(outcomes, k) && (#[trigger] outcomes[k]) is Err
                ==> replace_actions(ReplaceState::WriteTemp, outcomes) == seq![
                ReplaceAction::WriteTemp,
                ReplaceAction::SyncTemp,
                ReplaceAction::RenameIntoPlace,
            ].take(k + 1).push(ReplaceAction::RemoveTemp),
{
    let o = outcomes;
    let r1 = o.drop_first();
    let r2 = r1.drop_first();
    let r3 = r2.drop_first();
    let r4 = r3.drop_first();
    assert(r1[0] == o[1]);
    assert(r2[0] == o[2]);
    assert(r3[0] == o[3]);
    let s1 = spec_advance(ReplaceState::WriteTemp, o[0]);
    let s2 = spec_advance(s1, o[1]);
    let s3 = spec_advance(s2, o[2]);
    let s4 = spec_advance(s3, o[3]);
    let a4 = replace_actions(s4, r4);
    let a3 = replace_actions(s3, r3);
    let a2 = replace_actions(s2, r2);
    let a1 = replace_actions(s1, r1);
    let a0 = replace_actions(ReplaceState::WriteTemp, o);
    assert(a0 == seq![ReplaceAction::WriteTemp] + a1);
    if o[0] is Err {
        assert(s2 is Failed);
        assert(a1 == seq![ReplaceAction::RemoveTemp] + a2);
        assert(a2 =~= Seq::<ReplaceAction>::empty());
        assert(a0 =~= seq![ReplaceAction::WriteTemp, ReplaceAction::RemoveTemp]);
    } else {
        assert(a1 == seq![ReplaceAction::SyncTemp] + a2);
        if o[1] is Err {
            assert(a2 == seq![ReplaceAction::RemoveTemp] + a3);
            assert(a3 =~= Seq::<ReplaceAction>::empty());
            assert(a0 =~= seq![
                ReplaceAction::WriteTemp,
                ReplaceAction::SyncTemp,
                ReplaceAction::RemoveTemp,
            ]);
        } else {
            assert(a2 == seq![ReplaceAction::RenameIntoPlace] + a3);
            if o[2] is Err {
                assert(a3 == seq![ReplaceAction::RemoveTemp] + a4);
            } else {
                assert(a3 == seq![ReplaceAction::SyncParentDir] + a4);
            }
            assert(a4 =~= Seq::<ReplaceAction>::empty());
            if o[2] is Err {
                assert(a0 =~= seq![
                    ReplaceAction::WriteTemp,
                    ReplaceAction::SyncTemp,
                    ReplaceAction::RenameIntoPlace,
                    ReplaceAction::RemoveTemp,
                ]);
            } else {
                assert(a0 =~= seq![
                    ReplaceAction::WriteTemp,
                    ReplaceAction::SyncTemp,
                    ReplaceAction::RenameIntoPlace,
                    ReplaceAction::SyncParentDir,
                ]);
            }
        }
    }
    let w = seq![
        ReplaceAction::WriteTemp,
        ReplaceAction::SyncTemp,
        ReplaceAction::RenameIntoPlace,
    ];
    assert(w.take(1).push(ReplaceAction::RemoveTemp) =~= seq![
        ReplaceAction::WriteTemp,
        ReplaceAction::RemoveTemp,
    ]);
    assert(w.take(2).push(ReplaceAction::RemoveTemp) =~= seq![
        ReplaceAction::WriteTemp,
        ReplaceAction::SyncTemp,
        ReplaceAction::RemoveTemp,
    ]);
    assert(w.take(3).push(ReplaceAction::RemoveTemp) =~= seq![
        ReplaceAction::WriteTemp,
        ReplaceAction::SyncTemp,
        ReplaceAction::RenameIntoPlace,
        ReplaceAction::RemoveTemp,
    ]);
    if first_succeed(o, 3) {
        assert(o[0] is Ok && o[1] is Ok && o[2] is Ok);
    }
    assert forall|k: int|
        0 <= k < 3 && first_succeed(o, k) && (#[trigger] o[k]) is Err implies a0 == w.take(
        k + 1,
    ).push(ReplaceAction::RemoveTemp) by {
        if k >= 1 {
            assert(o[0] is Ok);
        }
        if k >= 2 {
            assert(o[1] is Ok);
        }
    }
}

} // verus!
