//! The decisions of the durable write: which file-system step comes next and
//! what a failed step means. The caller performs each step and reports back.
use vstd::prelude::*;
use crate::change::{RenameStep, ReprintError};

verus! {

/// Where the write stands: the next step to perform.
#[derive(PartialEq, Eq, Structural, Clone, Copy, Debug)]
pub enum WriteStage {
    /// Make sure the temporary path is free.
    CheckTemp,
    /// Make sure the backup path is free.
    CheckBackup,
    /// Write the new content to the temporary path and flush it.
    WriteTemp,
    /// Rename the target to the backup path.
    MoveOriginal,
    /// Rename the temporary file to the target path.
    Promote,
    /// The new content is in place; the backup stays.
    Done,
}

/// A file-system step that the caller is asked to perform.
#[derive(Debug)]
pub enum WriteAction {
    /// Report whether `path` is free (nothing exists there).
    EnsureAbsent { path: String },
    /// Write the whole buffer to `path`, durably.
    WriteTemp { path: String },
    /// Rename `from` to `to`.
    Rename { from: String, to: String },
    /// Nothing is left to do.
    Finished,
}

/// A durable replacement of `target` in progress.
pub struct DurableWrite {
    pub target: String,
    pub temp: String,
    pub backup: String,
    pub stage: WriteStage,
}

/// The suffix of the temporary path.
pub open spec fn temp_suffix() -> Seq<char> {
    seq!['.', 't', 'm', 'p']
}

/// The suffix of the backup path.
pub open spec fn backup_suffix() -> Seq<char> {
    seq!['.', 'b', 'k']
}

/// The stage that follows a step that succeeded.
pub open spec fn next_stage(s: WriteStage) -> WriteStage {
    match s {
        WriteStage::CheckTemp => WriteStage::CheckBackup,
        WriteStage::CheckBackup => WriteStage::WriteTemp,
        WriteStage::WriteTemp => WriteStage::MoveOriginal,
        WriteStage::MoveOriginal => WriteStage::Promote,
        WriteStage::Promote => WriteStage::Done,
        WriteStage::Done => WriteStage::Done,
    }
}

/// `a` is the step that the stage of `w` asks for, on the paths of `w`.
pub open spec fn action_matches(w: DurableWrite, a: WriteAction) -> bool {
    match w.stage {
        WriteStage::CheckTemp => a matches WriteAction::EnsureAbsent { path } && path@ == w.temp@,
        WriteStage::CheckBackup => a matches WriteAction::EnsureAbsent { path } && path@ == w.backup@,
        WriteStage::WriteTemp => a matches WriteAction::WriteTemp { path } && path@ == w.temp@,
        WriteStage::MoveOriginal => a matches WriteAction::Rename { from, to } && from@ == w.target@
            && to@ == w.backup@,
        WriteStage::Promote => a matches WriteAction::Rename { from, to } && from@ == w.temp@ && to@
            == w.target@,
        WriteStage::Done => a is Finished,
    }
}

/// `e` is how a failed step at the stage of `w`, described by `message`, is
/// reported.
pub open spec fn failure_matches(w: DurableWrite, message: Seq<char>, e: ReprintError) -> bool {
    match w.stage {
        WriteStage::CheckTemp => e matches ReprintError::PathCollision { path } && path@ == w.temp@,
        WriteStage::CheckBackup => e matches ReprintError::PathCollision { path } && path@
            == w.backup@,
        WriteStage::WriteTemp => e matches ReprintError::WriteFailure { path, message: m } && path@
            == w.temp@ && m@ == message,
        WriteStage::MoveOriginal => e matches ReprintError::RenameFailure { step, from, to, message: m }
            && step == RenameStep::ToBackup && from@ == w.target@ && to@ == w.backup@ && m@ == message,
        WriteStage::Promote => e matches ReprintError::RenameFailure { step, from, to, message: m }
            && step == RenameStep::Promote && from@ == w.temp@ && to@ == w.target@ && m@ == message,
        WriteStage::Done => false,
    }
}

impl DurableWrite {
    /// Starts the replacement of `target`, with the temporary file at
    /// `<target>.tmp` and the backup at `<target>.bk`.
    pub fn new(target: &str) -> (r: DurableWrite)
        ensures
            r.target@ == target@,
            r.temp@ == target@ + temp_suffix(),
            r.backup@ == target@ + backup_suffix(),
            r.stage == WriteStage::CheckTemp,
    {
        let mut temp = target.to_owned();
        temp.append(".tmp");
        let mut backup = target.to_owned();
        backup.append(".bk");
        proof {
            reveal_strlit(".tmp");
            reveal_strlit(".bk");
            assert(".tmp"@ == temp_suffix());
            assert(".bk"@ == backup_suffix());
        }
        DurableWrite { target: target.to_owned(), temp, backup, stage: WriteStage::CheckTemp }
    }

    /// The step to perform next.
    pub fn action(&self) -> (r: WriteAction)
        ensures
            action_matches(*self, r),
    {
        match self.stage {
            WriteStage::CheckTemp => WriteAction::EnsureAbsent { path: self.temp.clone() },
            WriteStage::CheckBackup => WriteAction::EnsureAbsent { path: self.backup.clone() },
            WriteStage::WriteTemp => WriteAction::WriteTemp { path: self.temp.clone() },
            WriteStage::MoveOriginal => WriteAction::Rename {
                from: self.target.clone(),
                to: self.backup.clone(),
            },
            WriteStage::Promote => WriteAction::Rename {
                from: self.temp.clone(),
                to: self.target.clone(),
            },
            WriteStage::Done => WriteAction::Finished,
        }
    }

    /// Records how the step asked for by `action` went: `succeeded` is whether
    /// a path check found the path free, or whether a write or rename went
    /// through; `message` describes a failure. A success moves to the next
    /// stage; a failure stops the write, with the stage left as it was.
    pub fn advance(&mut self, succeeded: bool, message: String) -> (r: Result<(), ReprintError>)
        ensures
            final(self).target == old(self).target,
            final(self).temp == old(self).temp,
            final(self).backup == old(self).backup,
            r is Ok <==> succeeded || old(self).stage == WriteStage::Done,
            r is Ok ==> final(self).stage == next_stage(old(self).stage),
            r is Err ==> final(self).stage == old(self).stage,
            r matches Err(e) ==> failure_matches(*old(self), message@, e),
    {
        if succeeded || self.stage == WriteStage::Done {
            self.stage = match self.stage {
                WriteStage::CheckTemp => WriteStage::CheckBackup,
                WriteStage::CheckBackup => WriteStage::WriteTemp,
                WriteStage::WriteTemp => WriteStage::MoveOriginal,
                WriteStage::MoveOriginal => WriteStage::Promote,
                WriteStage::Promote => WriteStage::Done,
                WriteStage::Done => WriteStage::Done,
            };
            return Ok(());
        }
        let e = match self.stage {
            WriteStage::CheckTemp => ReprintError::PathCollision { path: self.temp.clone() },
            WriteStage::CheckBackup => ReprintError::PathCollision { path: self.backup.clone() },
            WriteStage::WriteTemp => ReprintError::WriteFailure { path: self.temp.clone(), message },
            WriteStage::MoveOriginal => ReprintError::RenameFailure {
                step: RenameStep::ToBackup,
                from: self.target.clone(),
                to: self.backup.clone(),
                message,
            },
            _ => ReprintError::RenameFailure {
                step: RenameStep::Promote,
                from: self.temp.clone(),
                to: self.target.clone(),
                message,
            },
        };
        Err(e)
    }
}

} // verus!
