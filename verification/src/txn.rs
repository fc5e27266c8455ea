//! Transactional write-set for the config directory.
//!
//! The directory itself is worked on elsewhere: a run here says which [`Step`] to take
//! next and is told the [`Answer`]. New content lands in a temp file in the same
//! directory, is validated there, and is then renamed into place. Every target's prior
//! state is captured, and existing bytes are backed up to a timestamped sibling, before
//! anything is renamed; reverting restores priors in reverse order, rewriting the saved
//! bytes or deleting a file that did not exist before.
//!
//! What a run does to a directory is stated over a map from names to bytes. Names that
//! begin with a dot are scaffolding (temp files and backups); the rest is what keyd sees.

use crate::fault::Fault;
use crate::fault::FaultKind;
use crate::fault::FaultView;
use crate::strings;
use crate::text;
use vstd::prelude::*;

verus! {

// ---------------------------------------------------------------------------
// Types
// ---------------------------------------------------------------------------

/// What existed at a target name before it was touched.
#[derive(Debug, PartialEq, Eq)]
pub enum Prior {
    Existed(Vec<u8>),
    Absent,
}

/// One requested write: `name` is the full file name (`hhkb.conf`), already validated
/// by the caller, never path material.
pub struct WriteOp {
    pub name: String,
    pub content: Vec<u8>,
}

/// An applied (renamed-into-place) write, with what it replaced.
#[derive(Debug)]
pub struct Applied {
    pub name: String,
    pub prior: Prior,
    /// Name of the timestamped backup holding the prior bytes, if any existed.
    pub backup: Option<String>,
}

/// What the directory is asked to do next.
#[derive(Debug, PartialEq, Eq)]
pub enum Step {
    /// Read the bytes of `name`, never following a symlink.
    Read { name: String },
    /// Create `name` exclusively with these bytes.
    WriteNew { name: String, bytes: Vec<u8> },
    /// Let keyd validate the file `name`.
    Check { name: String },
    /// Rename `from` over `to`.
    Rename { from: String, to: String },
    /// Remove `name`.
    Unlink { name: String },
    /// Nothing more to do.
    Finished,
}

/// What came of a step. `Bytes` and `Missing` answer a read; `Done` answers the rest.
#[derive(Debug)]
pub enum Answer {
    Bytes(Vec<u8>),
    Missing,
    Done,
    Failed(Fault),
}

/// How far a revert has come.
#[derive(Debug)]
pub enum Undo {
    /// No revert is under way.
    Idle,
    /// The prior bytes are being written to a temp file.
    Restoring(Applied),
    /// The temp file is being renamed over the target.
    Replacing(Applied),
    /// The created file is being removed.
    Removing(Applied),
    /// Every prior is restored.
    Done,
    /// An error aborted the revert.
    Failed(Fault),
}

/// A fully applied write-set, ready to be kept or reverted.
#[derive(Debug)]
pub struct Txn {
    pub applied: Vec<Applied>,
    pub pid: u32,
    pub undo: Undo,
}

/// How far applying a write-set has come.
#[derive(Debug)]
pub enum Stage {
    ReadPrior,
    WriteTemp(Prior),
    CheckTemp(Prior),
    WriteBackup(Vec<u8>),
    DropTemp(Fault),
    Install(Prior, Option<String>),
    Undoing(Fault),
    Done,
    Failed(Fault),
}

/// A write-set being applied.
pub struct ApplyRun {
    pub ops: Vec<WriteOp>,
    pub next: usize,
    pub stamp: u64,
    pub stage: Stage,
    pub txn: Txn,
}

/// How far a delete has come.
#[derive(Debug)]
pub enum DeleteStage {
    ReadPrior,
    WriteBackup(Vec<u8>),
    Remove(Vec<u8>),
    DropBackup(Fault),
    Done,
    Failed(Fault),
}

/// A config being deleted.
pub struct DeleteRun {
    pub name: String,
    pub stamp: u64,
    pub stage: DeleteStage,
    pub txn: Txn,
}

// ---------------------------------------------------------------------------
// Their views
// ---------------------------------------------------------------------------

pub enum PriorView {
    Existed(Seq<u8>),
    Absent,
}

pub struct WriteOpView {
    pub name: Seq<char>,
    pub content: Seq<u8>,
}

pub struct AppliedView {
    pub name: Seq<char>,
    pub prior: PriorView,
    pub backup: Option<Seq<char>>,
}

pub enum StepView {
    Read { name: Seq<char> },
    WriteNew { name: Seq<char>, bytes: Seq<u8> },
    Check { name: Seq<char> },
    Rename { from: Seq<char>, to: Seq<char> },
    Unlink { name: Seq<char> },
    Finished,
}

pub enum AnswerView {
    Bytes(Seq<u8>),
    Missing,
    Done,
    Failed(FaultView),
}

pub enum UndoView {
    Idle,
    Restoring(AppliedView),
    Replacing(AppliedView),
    Removing(AppliedView),
    Done,
    Failed(FaultView),
}

pub struct TxnView {
    pub applied: Seq<AppliedView>,
    pub pid: nat,
    pub undo: UndoView,
}

pub enum StageView {
    ReadPrior,
    WriteTemp(PriorView),
    CheckTemp(PriorView),
    WriteBackup(Seq<u8>),
    DropTemp(FaultView),
    Install(PriorView, Option<Seq<char>>),
    Undoing(FaultView),
    Done,
    Failed(FaultView),
}

pub struct ApplyRunView {
    pub ops: Seq<WriteOpView>,
    pub next: nat,
    pub stamp: nat,
    pub stage: StageView,
    pub txn: TxnView,
}

pub enum DeleteStageView {
    ReadPrior,
    WriteBackup(Seq<u8>),
    Remove(Seq<u8>),
    DropBackup(FaultView),
    Done,
    Failed(FaultView),
}

pub struct DeleteRunView {
    pub name: Seq<char>,
    pub stamp: nat,
    pub stage: DeleteStageView,
    pub txn: TxnView,
}

impl View for Prior {
    type V = PriorView;

    open spec fn view(&self) -> PriorView {
        match *self {
            Prior::Existed(b) => PriorView::Existed(b@),
            Prior::Absent => PriorView::Absent,
        }
    }
}

impl View for WriteOp {
    type V = WriteOpView;

    open spec fn view(&self) -> WriteOpView {
        WriteOpView { name: self.name@, content: self.content@ }
    }
}

impl View for Applied {
    type V = AppliedView;

    open spec fn view(&self) -> AppliedView {
        AppliedView { name: self.name@, prior: self.prior@, backup: text::opt(self.backup) }
    }
}

impl View for Step {
    type V = StepView;

    open spec fn view(&self) -> StepView {
        match *self {
            Step::Read { name } => StepView::Read { name: name@ },
            Step::WriteNew { name, bytes } => StepView::WriteNew { name: name@, bytes: bytes@ },
            Step::Check { name } => StepView::Check { name: name@ },
            Step::Rename { from, to } => StepView::Rename { from: from@, to: to@ },
            Step::Unlink { name } => StepView::Unlink { name: name@ },
            Step::Finished => StepView::Finished,
        }
    }
}

impl View for Answer {
    type V = AnswerView;

    open spec fn view(&self) -> AnswerView {
        match *self {
            Answer::Bytes(b) => AnswerView::Bytes(b@),
            Answer::Missing => AnswerView::Missing,
            Answer::Done => AnswerView::Done,
            Answer::Failed(f) => AnswerView::Failed(f@),
        }
    }
}

impl View for Undo {
    type V = UndoView;

    open spec fn view(&self) -> UndoView {
        match *self {
            Undo::Idle => UndoView::Idle,
            Undo::Restoring(a) => UndoView::Restoring(a@),
            Undo::Replacing(a) => UndoView::Replacing(a@),
            Undo::Removing(a) => UndoView::Removing(a@),
            Undo::Done => UndoView::Done,
            Undo::Failed(f) => UndoView::Failed(f@),
        }
    }
}

impl View for Txn {
    type V = TxnView;

    open spec fn view(&self) -> TxnView {
        TxnView { applied: text::views(self.applied@), pid: self.pid as nat, undo: self.undo@ }
    }
}

impl View for Stage {
    type V = StageView;

    open spec fn view(&self) -> StageView {
        match *self {
            Stage::ReadPrior => StageView::ReadPrior,
            Stage::WriteTemp(p) => StageView::WriteTemp(p@),
            Stage::CheckTemp(p) => StageView::CheckTemp(p@),
            Stage::WriteBackup(b) => StageView::WriteBackup(b@),
            Stage::DropTemp(f) => StageView::DropTemp(f@),
            Stage::Install(p, b) => StageView::Install(p@, text::opt(b)),
            Stage::Undoing(f) => StageView::Undoing(f@),
            Stage::Done => StageView::Done,
            Stage::Failed(f) => StageView::Failed(f@),
        }
    }
}

impl View for ApplyRun {
    type V = ApplyRunView;

    open spec fn view(&self) -> ApplyRunView {
        ApplyRunView {
            ops: text::views(self.ops@),
            next: self.next as nat,
            stamp: self.stamp as nat,
            stage: self.stage@,
            txn: self.txn@,
        }
    }
}

impl View for DeleteStage {
    type V = DeleteStageView;

    open spec fn view(&self) -> DeleteStageView {
        match *self {
            DeleteStage::ReadPrior => DeleteStageView::ReadPrior,
            DeleteStage::WriteBackup(b) => DeleteStageView::WriteBackup(b@),
            DeleteStage::Remove(b) => DeleteStageView::Remove(b@),
            DeleteStage::DropBackup(f) => DeleteStageView::DropBackup(f@),
            DeleteStage::Done => DeleteStageView::Done,
            DeleteStage::Failed(f) => DeleteStageView::Failed(f@),
        }
    }
}

impl View for DeleteRun {
    type V = DeleteRunView;

    open spec fn view(&self) -> DeleteRunView {
        DeleteRunView {
            name: self.name@,
            stamp: self.stamp as nat,
            stage: self.stage@,
            txn: self.txn@,
        }
    }
}

// ---------------------------------------------------------------------------
// What each run does
// ---------------------------------------------------------------------------

/// The temp file that holds new content for `name`.
pub open spec fn temp_name(name: Seq<char>, pid: nat) -> Seq<char> {
    "."@ + name + ".keydviz-tmp."@ + text::decimal(pid)
}

/// The temp file that holds the bytes being restored to `name`.
pub open spec fn rev_name(name: Seq<char>, pid: nat) -> Seq<char> {
    "."@ + name + ".keydviz-rev."@ + text::decimal(pid)
}

/// What the backups of `name` begin with.
pub open spec fn backup_prefix(name: Seq<char>) -> Seq<char> {
    "."@ + name + ".keydviz-bak."@
}

/// The backup of `name`: unique across concurrent invocations within one second.
pub open spec fn backup_name(name: Seq<char>, stamp: nat, pid: nat) -> Seq<char> {
    backup_prefix(name) + text::decimal(stamp) + "."@ + text::decimal(pid)
}

/// The state before any revert.
pub open spec fn fresh_txn(pid: nat) -> TxnView {
    TxnView { applied: Seq::empty(), pid, undo: UndoView::Idle }
}

/// Take up the most recent write that is still to be reverted.
pub open spec fn undo_next(t: TxnView) -> TxnView {
    if t.applied.len() == 0 {
        TxnView { undo: UndoView::Done, ..t }
    } else {
        let a = t.applied.last();
        TxnView {
            applied: t.applied.drop_last(),
            undo: match a.prior {
                PriorView::Existed(_) => UndoView::Restoring(a),
                PriorView::Absent => UndoView::Removing(a),
            },
            ..t
        }
    }
}

/// The step a revert is waiting for.
pub open spec fn undo_step(t: TxnView) -> StepView {
    match t.undo {
        UndoView::Restoring(a) => match a.prior {
            PriorView::Existed(bytes) => StepView::WriteNew {
                name: rev_name(a.name, t.pid),
                bytes,
            },
            PriorView::Absent => StepView::Unlink { name: a.name },
        },
        UndoView::Replacing(a) => StepView::Rename { from: rev_name(a.name, t.pid), to: a.name },
        UndoView::Removing(a) => StepView::Unlink { name: a.name },
        _ => StepView::Finished,
    }
}

/// A revert after the answer to its step: the first failure aborts it.
pub open spec fn undo_answer(t: TxnView, ans: AnswerView) -> TxnView {
    match t.undo {
        UndoView::Restoring(a) => match ans {
            AnswerView::Failed(f) => TxnView { undo: UndoView::Failed(f), ..t },
            _ => match a.prior {
                PriorView::Existed(_) => TxnView { undo: UndoView::Replacing(a), ..t },
                PriorView::Absent => undo_next(t),
            },
        },
        UndoView::Replacing(_) => match ans {
            AnswerView::Failed(f) => TxnView { undo: UndoView::Failed(f), ..t },
            _ => undo_next(t),
        },
        UndoView::Removing(_) => match ans {
            AnswerView::Failed(f) => TxnView { undo: UndoView::Failed(f), ..t },
            _ => undo_next(t),
        },
        _ => t,
    }
}

/// A revert is at its end.
pub open spec fn undo_over(t: TxnView) -> bool {
    t.undo is Done || t.undo is Failed || t.undo is Idle
}

/// A write-set before its first step.
pub open spec fn apply_start(ops: Seq<WriteOpView>, stamp: nat, pid: nat) -> ApplyRunView {
    ApplyRunView {
        ops,
        next: 0,
        stamp,
        stage: if ops.len() == 0 {
            StageView::Done
        } else {
            StageView::ReadPrior
        },
        txn: fresh_txn(pid),
    }
}

/// The name the current write goes to.
pub open spec fn current_name(r: ApplyRunView) -> Seq<char> {
    r.ops[r.next as int].name
}

/// The step a write-set is waiting for.
pub open spec fn apply_step(r: ApplyRunView) -> StepView {
    let name = current_name(r);
    let temp = temp_name(name, r.txn.pid);
    match r.stage {
        StageView::ReadPrior => StepView::Read { name },
        StageView::WriteTemp(_) => StepView::WriteNew {
            name: temp,
            bytes: r.ops[r.next as int].content,
        },
        StageView::CheckTemp(_) => StepView::Check { name: temp },
        StageView::WriteBackup(bytes) => StepView::WriteNew {
            name: backup_name(name, r.stamp, r.txn.pid),
            bytes,
        },
        StageView::DropTemp(_) => StepView::Unlink { name: temp },
        StageView::Install(_, _) => StepView::Rename { from: temp, to: name },
        StageView::Undoing(_) => undo_step(r.txn),
        StageView::Done => StepView::Finished,
        StageView::Failed(_) => StepView::Finished,
    }
}

/// A write-set that failed: revert what is already in place.
pub open spec fn apply_failed(r: ApplyRunView, f: FaultView) -> ApplyRunView {
    let txn = undo_next(r.txn);
    ApplyRunView {
        stage: if undo_over(txn) {
            StageView::Failed(f)
        } else {
            StageView::Undoing(f)
        },
        txn,
        ..r
    }
}

/// A write-set after its current write went into place.
pub open spec fn apply_installed(
    r: ApplyRunView,
    prior: PriorView,
    backup: Option<Seq<char>>,
) -> ApplyRunView {
    ApplyRunView {
        next: r.next + 1,
        stage: if r.next + 1 >= r.ops.len() {
            StageView::Done
        } else {
            StageView::ReadPrior
        },
        txn: TxnView {
            applied: r.txn.applied.push(AppliedView { name: current_name(r), prior, backup }),
            ..r.txn
        },
        ..r
    }
}

/// A write-set after the answer to its step. The temp is written and checked before
/// the backup, so that a rejected config leaves nothing behind.
pub open spec fn apply_answer(r: ApplyRunView, ans: AnswerView) -> ApplyRunView {
    match r.stage {
        StageView::ReadPrior => match ans {
            AnswerView::Failed(f) => apply_failed(r, f),
            AnswerView::Bytes(b) => ApplyRunView {
                stage: StageView::WriteTemp(PriorView::Existed(b)),
                ..r
            },
            _ => ApplyRunView { stage: StageView::WriteTemp(PriorView::Absent), ..r },
        },
        StageView::WriteTemp(p) => match ans {
            AnswerView::Failed(f) => apply_failed(r, f),
            _ => ApplyRunView { stage: StageView::CheckTemp(p), ..r },
        },
        StageView::CheckTemp(p) => match ans {
            AnswerView::Failed(f) => ApplyRunView { stage: StageView::DropTemp(f), ..r },
            _ => match p {
                PriorView::Existed(b) => ApplyRunView { stage: StageView::WriteBackup(b), ..r },
                PriorView::Absent => ApplyRunView { stage: StageView::Install(p, None), ..r },
            },
        },
        StageView::WriteBackup(b) => match ans {
            AnswerView::Failed(f) => ApplyRunView { stage: StageView::DropTemp(f), ..r },
            _ => ApplyRunView {
                stage: StageView::Install(
                    PriorView::Existed(b),
                    Some(backup_name(current_name(r), r.stamp, r.txn.pid)),
                ),
                ..r
            },
        },
        StageView::DropTemp(f) => apply_failed(r, f),
        StageView::Install(p, b) => match ans {
            AnswerView::Failed(f) => apply_failed(r, f),
            _ => apply_installed(r, p, b),
        },
        StageView::Undoing(f) => {
            let txn = undo_answer(r.txn, ans);
            ApplyRunView {
                stage: if undo_over(txn) {
                    StageView::Failed(f)
                } else {
                    StageView::Undoing(f)
                },
                txn,
                ..r
            }
        },
        StageView::Done => r,
        StageView::Failed(_) => r,
    }
}

/// A run points at one of its writes until it is over.
pub open spec fn apply_wf(r: ApplyRunView) -> bool {
    r.stage is Done || r.stage is Failed || r.stage is Undoing || r.next < r.ops.len()
}

/// A delete before its first step.
pub open spec fn delete_start(name: Seq<char>, stamp: nat, pid: nat) -> DeleteRunView {
    DeleteRunView { name, stamp, stage: DeleteStageView::ReadPrior, txn: fresh_txn(pid) }
}

/// The step a delete is waiting for.
pub open spec fn delete_step(r: DeleteRunView) -> StepView {
    let bak = backup_name(r.name, r.stamp, r.txn.pid);
    match r.stage {
        DeleteStageView::ReadPrior => StepView::Read { name: r.name },
        DeleteStageView::WriteBackup(bytes) => StepView::WriteNew { name: bak, bytes },
        DeleteStageView::Remove(_) => StepView::Unlink { name: r.name },
        DeleteStageView::DropBackup(_) => StepView::Unlink { name: bak },
        DeleteStageView::Done => StepView::Finished,
        DeleteStageView::Failed(_) => StepView::Finished,
    }
}

/// What deleting a config that is not there fails with.
pub open spec fn no_such_config() -> FaultView {
    FaultView { kind: FaultKind::NotFound, text: "config does not exist"@ }
}

/// A delete after the answer to its step.
pub open spec fn delete_answer(r: DeleteRunView, ans: AnswerView) -> DeleteRunView {
    match r.stage {
        DeleteStageView::ReadPrior => match ans {
            AnswerView::Failed(f) => DeleteRunView { stage: DeleteStageView::Failed(f), ..r },
            AnswerView::Bytes(b) => DeleteRunView { stage: DeleteStageView::WriteBackup(b), ..r },
            _ => DeleteRunView { stage: DeleteStageView::Failed(no_such_config()), ..r },
        },
        DeleteStageView::WriteBackup(b) => match ans {
            AnswerView::Failed(f) => DeleteRunView { stage: DeleteStageView::Failed(f), ..r },
            _ => DeleteRunView { stage: DeleteStageView::Remove(b), ..r },
        },
        DeleteStageView::Remove(b) => match ans {
            AnswerView::Failed(f) => DeleteRunView { stage: DeleteStageView::DropBackup(f), ..r },
            _ => DeleteRunView {
                stage: DeleteStageView::Done,
                txn: TxnView {
                    applied: seq![
                        AppliedView {
                            name: r.name,
                            prior: PriorView::Existed(b),
                            backup: Some(backup_name(r.name, r.stamp, r.txn.pid)),
                        },
                    ],
                    ..r.txn
                },
                ..r
            },
        },
        DeleteStageView::DropBackup(f) => DeleteRunView { stage: DeleteStageView::Failed(f), ..r },
        DeleteStageView::Done => r,
        DeleteStageView::Failed(_) => r,
    }
}

// ---------------------------------------------------------------------------
// Running them
// ---------------------------------------------------------------------------

/// `.{name}{mark}{pid}`
fn scaffold(name: &str, mark: &str, pid: u32) -> (r: String)
    ensures
        r@ == "."@ + name@ + mark@ + text::decimal(pid as nat),
{
    let mut r = strings::copy(".");
    r.append(name);
    r.append(mark);
    r.append(strings::decimal(pid as u64).as_str());
    r
}

/// The name of the backup of `name`.
fn backup_of(name: &str, stamp: u64, pid: u32) -> (r: String)
    ensures
        r@ == backup_name(name@, stamp as nat, pid as nat),
{
    let mut r = strings::copy(".");
    r.append(name);
    r.append(".keydviz-bak.");
    r.append(strings::decimal(stamp).as_str());
    r.append(".");
    r.append(strings::decimal(pid as u64).as_str());
    r
}

impl Txn {
    /// Nothing applied yet.
    pub fn fresh(pid: u32) -> (r: Txn)
        ensures
            r@ == fresh_txn(pid as nat),
    {
        let r = Txn { applied: Vec::new(), pid, undo: Undo::Idle };
        assert(r@.applied == Seq::<AppliedView>::empty());
        r
    }

    /// Begin restoring every prior, most recent first: rewrite the saved bytes over the
    /// target (via temp and rename), or delete a file that did not exist before. The
    /// first error aborts; at that point the disk needs human eyes, which is what the
    /// timestamped backups are for.
    pub fn revert(self) -> (r: Txn)
        ensures
            r@ == undo_next(self@),
    {
        let mut t = self;
        let ghost all = t.applied@;
        match t.applied.pop() {
            None => {
                let r = Txn { applied: t.applied, pid: t.pid, undo: Undo::Done };
                assert(r@.applied == self@.applied);
                r
            },
            Some(a) => {
                proof {
                    assert(all.last()@ == self@.applied.last());
                    assert(text::views(t.applied@) == self@.applied.drop_last());
                }
                match a.prior {
                    Prior::Existed(bytes) => Txn {
                        applied: t.applied,
                        pid: t.pid,
                        undo: Undo::Restoring(
                            Applied { name: a.name, prior: Prior::Existed(bytes), backup: a.backup },
                        ),
                    },
                    Prior::Absent => Txn {
                        applied: t.applied,
                        pid: t.pid,
                        undo: Undo::Removing(
                            Applied { name: a.name, prior: Prior::Absent, backup: a.backup },
                        ),
                    },
                }
            },
        }
    }

    /// The step the revert is waiting for.
    pub fn step(&self) -> (r: Step)
        ensures
            r@ == undo_step(self@),
    {
        match &self.undo {
            Undo::Restoring(a) => match &a.prior {
                Prior::Existed(bytes) => Step::WriteNew {
                    name: scaffold(a.name.as_str(), ".keydviz-rev.", self.pid),
                    bytes: strings::copy_bytes(bytes),
                },
                Prior::Absent => Step::Unlink { name: strings::copy(a.name.as_str()) },
            },
            Undo::Replacing(a) => Step::Rename {
                from: scaffold(a.name.as_str(), ".keydviz-rev.", self.pid),
                to: strings::copy(a.name.as_str()),
            },
            Undo::Removing(a) => Step::Unlink { name: strings::copy(a.name.as_str()) },
            _ => Step::Finished,
        }
    }

    /// Go on with the revert after the answer to its step.
    pub fn answer(self, ans: Answer) -> (r: Txn)
        ensures
            r@ == undo_answer(self@, ans@),
    {
        let t = self;
        match t.undo {
            Undo::Restoring(a) => match ans {
                Answer::Failed(f) => Txn { applied: t.applied, pid: t.pid, undo: Undo::Failed(f) },
                _ => match a.prior {
                    Prior::Existed(bytes) => Txn {
                        applied: t.applied,
                        pid: t.pid,
                        undo: Undo::Replacing(
                            Applied { name: a.name, prior: Prior::Existed(bytes), backup: a.backup },
                        ),
                    },
                    Prior::Absent => Txn { applied: t.applied, pid: t.pid, undo: Undo::Idle }.revert(),
                },
            },
            Undo::Replacing(_) => match ans {
                Answer::Failed(f) => Txn { applied: t.applied, pid: t.pid, undo: Undo::Failed(f) },
                _ => Txn { applied: t.applied, pid: t.pid, undo: Undo::Idle }.revert(),
            },
            Undo::Removing(_) => match ans {
                Answer::Failed(f) => Txn { applied: t.applied, pid: t.pid, undo: Undo::Failed(f) },
                _ => Txn { applied: t.applied, pid: t.pid, undo: Undo::Idle }.revert(),
            },
            undo => Txn { applied: t.applied, pid: t.pid, undo },
        }
    }

    /// Whether the revert is at its end.
    pub fn over(&self) -> (r: bool)
        ensures
            r == undo_over(self@),
    {
        match &self.undo {
            Undo::Done => true,
            Undo::Failed(_) => true,
            Undo::Idle => true,
            _ => false,
        }
    }

    /// Commit: the writes stay, and nothing is left that a later revert could undo.
    pub fn keep(self) -> (r: Txn)
        ensures
            r@ == (TxnView { applied: Seq::empty(), ..self@ }),
    {
        let r = Txn { applied: Vec::new(), pid: self.pid, undo: self.undo };
        assert(r@.applied == Seq::<AppliedView>::empty());
        r
    }
}

/// Apply a write-set: for each op, capture the prior, write the new content to a temp
/// file, let keyd validate the temp (the exact bytes about to go live), back the prior
/// up, then rename into place. Any failure reverts everything already applied and ends
/// the run with that failure.
pub fn apply(ops: Vec<WriteOp>, stamp: u64, pid: u32) -> (r: ApplyRun)
    ensures
        r@ == apply_start(text::views(ops@), stamp as nat, pid as nat),
        apply_wf(r@),
{
    let stage = if ops.len() == 0 { Stage::Done } else { Stage::ReadPrior };
    ApplyRun { ops, next: 0, stamp, stage, txn: Txn::fresh(pid) }
}

impl ApplyRun {
    /// The step the run is waiting for.
    pub fn step(&self) -> (r: Step)
        requires
            apply_wf(self@),
        ensures
            r@ == apply_step(self@),
    {
        match &self.stage {
            Stage::Done => return Step::Finished,
            Stage::Failed(_) => return Step::Finished,
            Stage::Undoing(_) => return self.txn.step(),
            _ => {},
        }
        let op = &self.ops[self.next];
        assert(op@ == self@.ops[self.next as int]);
        let name = op.name.as_str();
        let temp = scaffold(name, ".keydviz-tmp.", self.txn.pid);
        match &self.stage {
            Stage::ReadPrior => Step::Read { name: strings::copy(name) },
            Stage::WriteTemp(_) => Step::WriteNew {
                name: temp,
                bytes: strings::copy_bytes(&op.content),
            },
            Stage::CheckTemp(_) => Step::Check { name: temp },
            Stage::WriteBackup(bytes) => Step::WriteNew {
                name: backup_of(name, self.stamp, self.txn.pid),
                bytes: strings::copy_bytes(bytes),
            },
            Stage::DropTemp(_) => Step::Unlink { name: temp },
            Stage::Install(_, _) => Step::Rename { from: temp, to: strings::copy(name) },
            _ => Step::Finished,
        }
    }

    /// The same run at another stage.
    fn at(self, stage: Stage) -> (r: ApplyRun)
        ensures
            r@ == (ApplyRunView { stage: stage@, ..self@ }),
    {
        ApplyRun { ops: self.ops, next: self.next, stamp: self.stamp, stage, txn: self.txn }
    }

    /// The run with what is already in place being reverted.
    fn failed(self, f: Fault) -> (r: ApplyRun)
        ensures
            r@ == apply_failed(self@, f@),
    {
        let txn = self.txn.revert();
        let stage = if txn.over() { Stage::Failed(f) } else { Stage::Undoing(f) };
        ApplyRun { ops: self.ops, next: self.next, stamp: self.stamp, stage, txn }
    }

    /// Go on after the answer to the step.
    pub fn answer(self, ans: Answer) -> (r: ApplyRun)
        requires
            apply_wf(self@),
        ensures
            r@ == apply_answer(self@, ans@),
            apply_wf(r@),
    {
        let run = ApplyRun {
            ops: self.ops,
            next: self.next,
            stamp: self.stamp,
            stage: Stage::Done,
            txn: self.txn,
        };
        match self.stage {
            Stage::ReadPrior => match ans {
                Answer::Failed(f) => run.failed(f),
                Answer::Bytes(b) => run.at(Stage::WriteTemp(Prior::Existed(b))),
                _ => run.at(Stage::WriteTemp(Prior::Absent)),
            },
            Stage::WriteTemp(p) => match ans {
                Answer::Failed(f) => run.failed(f),
                _ => run.at(Stage::CheckTemp(p)),
            },
            Stage::CheckTemp(p) => match ans {
                Answer::Failed(f) => run.at(Stage::DropTemp(f)),
                _ => match p {
                    Prior::Existed(b) => run.at(Stage::WriteBackup(b)),
                    Prior::Absent => run.at(Stage::Install(Prior::Absent, None)),
                },
            },
            Stage::WriteBackup(b) => match ans {
                Answer::Failed(f) => run.at(Stage::DropTemp(f)),
                _ => {
                    assert(run.ops@[run.next as int]@ == self@.ops[self@.next as int]);
                    let bak = backup_of(
                        run.ops[run.next].name.as_str(),
                        run.stamp,
                        run.txn.pid,
                    );
                    run.at(Stage::Install(Prior::Existed(b), Some(bak)))
                },
            },
            Stage::DropTemp(f) => run.failed(f),
            Stage::Install(prior, backup) => match ans {
                Answer::Failed(f) => run.failed(f),
                _ => {
                    assert(run.ops@[run.next as int]@ == self@.ops[self@.next as int]);
                    let name = strings::copy(run.ops[run.next].name.as_str());
                    let ghost a = AppliedView {
                        name: name@,
                        prior: prior@,
                        backup: text::opt(backup),
                    };
                    let count: usize = run.ops.len();
                    let next: usize = run.next + 1;
                    let stage = if next >= count { Stage::Done } else { Stage::ReadPrior };
                    let mut txn = run.txn;
                    let ghost was = txn@.applied;
                    txn.applied.push(Applied { name, prior, backup });
                    assert(txn@.applied == was.push(a));
                    ApplyRun { ops: run.ops, next, stamp: run.stamp, stage, txn }
                },
            },
            Stage::Undoing(f) => {
                let txn = run.txn.answer(ans);
                let stage = if txn.over() { Stage::Failed(f) } else { Stage::Undoing(f) };
                ApplyRun { ops: run.ops, next: run.next, stamp: run.stamp, stage, txn }
            },
            Stage::Done => run,
            Stage::Failed(f) => run.at(Stage::Failed(f)),
        }
    }
}

/// Transactionally delete `name`: capture its prior bytes, back them up to a
/// timestamped sibling, then unlink it. The resulting transaction reverts by recreating
/// the file from the captured prior. Fails, touching nothing that persists, where there
/// is nothing to delete.
pub fn delete(name: &str, stamp: u64, pid: u32) -> (r: DeleteRun)
    ensures
        r@ == delete_start(name@, stamp as nat, pid as nat),
{
    DeleteRun {
        name: strings::copy(name),
        stamp,
        stage: DeleteStage::ReadPrior,
        txn: Txn::fresh(pid),
    }
}

impl DeleteRun {
    /// The step the run is waiting for.
    pub fn step(&self) -> (r: Step)
        ensures
            r@ == delete_step(self@),
    {
        let name = self.name.as_str();
        let bak = backup_of(name, self.stamp, self.txn.pid);
        match &self.stage {
            DeleteStage::ReadPrior => Step::Read { name: strings::copy(name) },
            DeleteStage::WriteBackup(bytes) => Step::WriteNew {
                name: bak,
                bytes: strings::copy_bytes(bytes),
            },
            DeleteStage::Remove(_) => Step::Unlink { name: strings::copy(name) },
            DeleteStage::DropBackup(_) => Step::Unlink { name: bak },
            DeleteStage::Done => Step::Finished,
            DeleteStage::Failed(_) => Step::Finished,
        }
    }

    /// Go on after the answer to the step.
    pub fn answer(self, ans: Answer) -> (r: DeleteRun)
        ensures
            r@ == delete_answer(self@, ans@),
    {
        let mut txn = self.txn;
        let stage = match self.stage {
            DeleteStage::ReadPrior => match ans {
                Answer::Failed(f) => DeleteStage::Failed(f),
                Answer::Bytes(b) => DeleteStage::WriteBackup(b),
                _ => DeleteStage::Failed(Fault::new(FaultKind::NotFound, "config does not exist")),
            },
            DeleteStage::WriteBackup(b) => match ans {
                Answer::Failed(f) => DeleteStage::Failed(f),
                _ => DeleteStage::Remove(b),
            },
            DeleteStage::Remove(b) => match ans {
                Answer::Failed(f) => DeleteStage::DropBackup(f),
                _ => {
                    let bak = backup_of(self.name.as_str(), self.stamp, txn.pid);
                    let mut applied: Vec<Applied> = Vec::new();
                    let ghost bytes = b@;
                    applied.push(
                        Applied {
                            name: strings::copy(self.name.as_str()),
                            prior: Prior::Existed(b),
                            backup: Some(bak),
                        },
                    );
                    txn = Txn { applied, pid: txn.pid, undo: txn.undo };
                    assert(txn@.applied == seq![
                        AppliedView {
                            name: self@.name,
                            prior: PriorView::Existed(bytes),
                            backup: Some(backup_name(self@.name, self@.stamp, self@.txn.pid)),
                        },
                    ]);
                    DeleteStage::Done
                },
            },
            DeleteStage::DropBackup(f) => DeleteStage::Failed(f),
            DeleteStage::Done => DeleteStage::Done,
            DeleteStage::Failed(f) => DeleteStage::Failed(f),
        };
        DeleteRun { name: self.name, stamp: self.stamp, stage, txn }
    }
}

// ---------------------------------------------------------------------------
// What a run leaves in the directory
// ---------------------------------------------------------------------------

/// `disk` answers `step` with `ans` and is `after` then. A failed step leaves the
/// directory as it was, but for a new file that a failed write may leave behind in part.
/// A rename or a removal that took effect, and of which only the syncing failed, is no
/// such step.
pub open spec fn answers(
    disk: Map<Seq<char>, Seq<u8>>,
    step: StepView,
    ans: AnswerView,
    after: Map<Seq<char>, Seq<u8>>,
) -> bool {
    match step {
        StepView::Read { name } => after == disk && match ans {
            AnswerView::Bytes(b) => disk.contains_key(name) && disk[name] == b,
            AnswerView::Missing => !disk.contains_key(name),
            AnswerView::Done => false,
            AnswerView::Failed(_) => true,
        },
        StepView::WriteNew { name, bytes } => match ans {
            AnswerView::Done => !disk.contains_key(name) && after == disk.insert(name, bytes),
            AnswerView::Failed(_) => after == disk || (!disk.contains_key(name)
                && after.contains_key(name) && after == disk.insert(name, after[name])),
            _ => false,
        },
        StepView::Check { name } => after == disk && (ans is Done || ans is Failed),
        StepView::Rename { from, to } => match ans {
            AnswerView::Done => disk.contains_key(from) && after == disk.remove(from).insert(
                to,
                disk[from],
            ),
            AnswerView::Failed(_) => after == disk,
            _ => false,
        },
        StepView::Unlink { name } => match ans {
            AnswerView::Done => disk.contains_key(name) && after == disk.remove(name),
            AnswerView::Failed(_) => after == disk,
            _ => false,
        },
        StepView::Finished => false,
    }
}

/// A name that keyd does not read.
pub open spec fn is_hidden(name: Seq<char>) -> bool {
    name.len() > 0 && name[0] == '.'
}

/// The directory without its hidden names: what keyd sees.
pub open spec fn visible(disk: Map<Seq<char>, Seq<u8>>) -> Map<Seq<char>, Seq<u8>> {
    Map::new(|n: Seq<char>| disk.contains_key(n) && !is_hidden(n), |n: Seq<char>| disk[n])
}

/// The directory with one write undone.
pub open spec fn undo_one(disk: Map<Seq<char>, Seq<u8>>, a: AppliedView) -> Map<
    Seq<char>,
    Seq<u8>,
> {
    match a.prior {
        PriorView::Existed(b) => disk.insert(a.name, b),
        PriorView::Absent => disk.remove(a.name),
    }
}

/// The directory with the writes undone, most recent first.
pub open spec fn undo_all(
    disk: Map<Seq<char>, Seq<u8>>,
    applied: Seq<AppliedView>,
) -> Map<Seq<char>, Seq<u8>>
    decreases applied.len(),
{
    if applied.len() == 0 {
        disk
    } else {
        undo_all(undo_one(disk, applied.last()), applied.drop_last())
    }
}

/// Every target is a name that keyd sees.
pub open spec fn targets_visible(applied: Seq<AppliedView>) -> bool {
    forall|i: int| 0 <= i < applied.len() ==> !is_hidden(#[trigger] applied[i].name)
}

/// What a revert in progress still has to do turns `disk` back into `origin`, as far as
/// keyd sees it.
pub open spec fn undo_leads_to(
    t: TxnView,
    disk: Map<Seq<char>, Seq<u8>>,
    origin: Map<Seq<char>, Seq<u8>>,
) -> bool {
    &&& targets_visible(t.applied)
    &&& match t.undo {
        UndoView::Idle => undo_all(visible(disk), t.applied) == visible(origin),
        UndoView::Done => t.applied.len() == 0 && visible(disk) == visible(origin),
        UndoView::Restoring(a) => !is_hidden(a.name) && a.prior is Existed && undo_all(
            undo_one(visible(disk), a),
            t.applied,
        ) == visible(origin),
        UndoView::Replacing(a) => !is_hidden(a.name) && a.prior is Existed && undo_all(
            undo_one(visible(disk), a),
            t.applied,
        ) == visible(origin) && disk.contains_key(rev_name(a.name, t.pid)) && disk[rev_name(
            a.name,
            t.pid,
        )] == a.prior->Existed_0,
        UndoView::Removing(a) => !is_hidden(a.name) && a.prior is Absent && undo_all(
            undo_one(visible(disk), a),
            t.applied,
        ) == visible(origin),
        UndoView::Failed(_) => true,
    }
}

/// The scaffolding names are hidden.
proof fn scaffolding_is_hidden(name: Seq<char>, stamp: nat, pid: nat)
    ensures
        is_hidden(temp_name(name, pid)),
        is_hidden(rev_name(name, pid)),
        is_hidden(backup_name(name, stamp, pid)),
{
    reveal_strlit(".");
}

/// Taking up the next write keeps where the revert leads.
proof fn undo_next_leads_on(
    t: TxnView,
    disk: Map<Seq<char>, Seq<u8>>,
    origin: Map<Seq<char>, Seq<u8>>,
)
    requires
        targets_visible(t.applied),
        undo_all(visible(disk), t.applied) == visible(origin),
    ensures
        undo_leads_to(undo_next(t), disk, origin),
{
    if t.applied.len() > 0 {
        let rest = t.applied.drop_last();
        assert forall|i: int| 0 <= i < rest.len() implies !is_hidden(#[trigger] rest[i].name) by {
            assert(rest[i] == t.applied[i]);
        }
        assert(!is_hidden(t.applied[t.applied.len() - 1].name));
    }
}

/// Whatever the directory answers, a revert in progress goes on leading back to where
/// the transaction began, until it succeeds or aborts.
pub proof fn revert_leads_back(
    t: TxnView,
    disk: Map<Seq<char>, Seq<u8>>,
    origin: Map<Seq<char>, Seq<u8>>,
    ans: AnswerView,
    after: Map<Seq<char>, Seq<u8>>,
)
    requires
        undo_leads_to(t, disk, origin),
        answers(disk, undo_step(t), ans, after),
    ensures
        undo_leads_to(undo_answer(t, ans), after, origin),
{
    match t.undo {
        UndoView::Restoring(a) => {
            scaffolding_is_hidden(a.name, 0, t.pid);
            assert(visible(after) =~= visible(disk));
        },
        UndoView::Replacing(a) => {
            scaffolding_is_hidden(a.name, 0, t.pid);
            if !(ans is Failed) {
                assert(visible(after) =~= undo_one(visible(disk), a));
                undo_next_leads_on(t, after, origin);
            }
        },
        UndoView::Removing(a) => {
            if !(ans is Failed) {
                assert(visible(after) =~= undo_one(visible(disk), a));
                undo_next_leads_on(t, after, origin);
            }
        },
        _ => {},
    }
}

/// A revert that reports success has restored everything that keyd sees.
pub proof fn finished_revert_restores(
    t: TxnView,
    disk: Map<Seq<char>, Seq<u8>>,
    origin: Map<Seq<char>, Seq<u8>>,
)
    requires
        undo_leads_to(t, disk, origin),
        t.undo is Done,
    ensures
        visible(disk) == visible(origin),
        t.applied.len() == 0,
{
}

/// Where a write-set stands in the directory it began in as `origin`: undoing what is in
/// place leads back, and the temp file of the current write holds its content once it is
/// written.
pub open spec fn apply_leads_to(
    r: ApplyRunView,
    disk: Map<Seq<char>, Seq<u8>>,
    origin: Map<Seq<char>, Seq<u8>>,
) -> bool {
    let name = current_name(r);
    let temp = temp_name(name, r.txn.pid);
    let content = r.ops[r.next as int].content;
    let undoable = undo_all(visible(disk), r.txn.applied) == visible(origin);
    let captured = |p: PriorView|
        match p {
            PriorView::Existed(b) => disk.contains_key(name) && disk[name] == b,
            PriorView::Absent => !disk.contains_key(name),
        };
    let staged = disk.contains_key(temp) && disk[temp] == content;
    &&& apply_wf(r)
    &&& targets_visible(r.txn.applied)
    &&& forall|i: int| r.next <= i < r.ops.len() ==> !is_hidden(#[trigger] r.ops[i].name)
    &&& match r.stage {
        StageView::ReadPrior => undoable && r.txn.undo is Idle,
        StageView::WriteTemp(p) => undoable && r.txn.undo is Idle && captured(p),
        StageView::CheckTemp(p) => undoable && r.txn.undo is Idle && captured(p) && staged,
        StageView::WriteBackup(b) => undoable && r.txn.undo is Idle && captured(
            PriorView::Existed(b),
        ) && staged,
        StageView::DropTemp(_) => undoable && r.txn.undo is Idle,
        StageView::Install(p, b) => undoable && r.txn.undo is Idle && captured(p) && staged && (
        b is Some <==> p is Existed) && (b is Some ==> disk.contains_key(b->0)
            && p == PriorView::Existed(disk[b->0])),
        StageView::Undoing(_) => undo_leads_to(r.txn, disk, origin) && !undo_over(r.txn),
        StageView::Done => undoable && r.txn.undo is Idle,
        StageView::Failed(_) => undo_leads_to(r.txn, disk, origin) && (r.txn.undo is Done
            || r.txn.undo is Failed),
    }
}

/// A write-set begins where nothing has been touched.
pub proof fn apply_starts_at_origin(
    ops: Seq<WriteOpView>,
    stamp: nat,
    pid: nat,
    origin: Map<Seq<char>, Seq<u8>>,
)
    requires
        forall|i: int| 0 <= i < ops.len() ==> !is_hidden(#[trigger] ops[i].name),
    ensures
        apply_leads_to(apply_start(ops, stamp, pid), origin, origin),
{
}

/// Undoing a write that has just gone into place gives the directory before it.
proof fn installed_can_be_undone(
    applied: Seq<AppliedView>,
    a: AppliedView,
    before: Map<Seq<char>, Seq<u8>>,
    after: Map<Seq<char>, Seq<u8>>,
)
    requires
        undo_one(after, a) == before,
    ensures
        undo_all(after, applied.push(a)) == undo_all(before, applied),
{
    assert(applied.push(a).drop_last() == applied);
}

/// Whatever the directory answers, a write-set stays undoable: at every point either
/// undoing what it has put in place leads back to what keyd saw at the start, or it is
/// being undone and that leads back.
pub proof fn apply_stays_undoable(
    r: ApplyRunView,
    disk: Map<Seq<char>, Seq<u8>>,
    origin: Map<Seq<char>, Seq<u8>>,
    ans: AnswerView,
    after: Map<Seq<char>, Seq<u8>>,
)
    requires
        apply_leads_to(r, disk, origin),
        answers(disk, apply_step(r), ans, after),
    ensures
        apply_leads_to(apply_answer(r, ans), after, origin),
{
    let name = current_name(r);
    scaffolding_is_hidden(name, r.stamp, r.txn.pid);
    let temp = temp_name(name, r.txn.pid);
    match r.stage {
        StageView::ReadPrior => {
            if ans is Failed {
                undo_next_leads_on(r.txn, after, origin);
            }
        },
        StageView::WriteTemp(p) => {
            assert(visible(after) =~= visible(disk));
            assert(name != temp);
            if ans is Failed {
                undo_next_leads_on(r.txn, after, origin);
            }
        },
        StageView::CheckTemp(p) => {},
        StageView::WriteBackup(b) => {
            let bak = backup_name(name, r.stamp, r.txn.pid);
            assert(visible(after) =~= visible(disk));
            assert(name != bak);
        },
        StageView::DropTemp(f) => {
            assert(visible(after) =~= visible(disk));
            undo_next_leads_on(r.txn, after, origin);
        },
        StageView::Install(p, b) => {
            assert(name != temp);
            if ans is Failed {
                undo_next_leads_on(r.txn, after, origin);
            } else {
                let a = AppliedView { name, prior: p, backup: b };
                assert(undo_one(visible(after), a) =~= visible(disk));
                installed_can_be_undone(r.txn.applied, a, visible(disk), visible(after));
            }
        },
        StageView::Undoing(f) => {
            revert_leads_back(r.txn, disk, origin, ans, after);
        },
        _ => {},
    }
}

/// All or nothing: a write-set that failed, its own revert having gone through, leaves
/// what keyd sees as it was.
pub proof fn failed_apply_changes_nothing(
    r: ApplyRunView,
    disk: Map<Seq<char>, Seq<u8>>,
    origin: Map<Seq<char>, Seq<u8>>,
)
    requires
        apply_leads_to(r, disk, origin),
        r.stage is Failed,
        !(r.txn.undo is Failed),
    ensures
        visible(disk) == visible(origin),
        r.txn.applied.len() == 0,
{
}

/// An applied write-set can be reverted: starting the revert of a finished run leads
/// back to what keyd saw before the run.
pub proof fn applied_set_reverts_to_origin(
    r: ApplyRunView,
    disk: Map<Seq<char>, Seq<u8>>,
    origin: Map<Seq<char>, Seq<u8>>,
)
    requires
        apply_leads_to(r, disk, origin),
        r.stage is Done,
    ensures
        undo_leads_to(undo_next(r.txn), disk, origin),
{
    undo_next_leads_on(r.txn, disk, origin);
}

/// A config the checker rejects leaves zero debris: once its temp is removed, the
/// directory is exactly what it was, backups included.
pub proof fn rejected_config_leaves_no_debris(
    r: ApplyRunView,
    disk: Map<Seq<char>, Seq<u8>>,
    prior: AnswerView,
    rejection: FaultView,
    d1: Map<Seq<char>, Seq<u8>>,
    d2: Map<Seq<char>, Seq<u8>>,
    d3: Map<Seq<char>, Seq<u8>>,
    d4: Map<Seq<char>, Seq<u8>>,
)
    requires
        apply_wf(r),
        r.stage is ReadPrior,
        !(prior is Failed),
        answers(disk, apply_step(r), prior, d1),
        ({
            let r1 = apply_answer(r, prior);
            let r2 = apply_answer(r1, AnswerView::Done);
            let r3 = apply_answer(r2, AnswerView::Failed(rejection));
            &&& answers(d1, apply_step(r1), AnswerView::Done, d2)
            &&& answers(d2, apply_step(r2), AnswerView::Failed(rejection), d3)
            &&& answers(d3, apply_step(r3), AnswerView::Done, d4)
        }),
    ensures
        d4 == disk,
        ({
            let r1 = apply_answer(r, prior);
            let r2 = apply_answer(r1, AnswerView::Done);
            let r3 = apply_answer(r2, AnswerView::Failed(rejection));
            apply_answer(r3, AnswerView::Done) == apply_failed(
                ApplyRunView { stage: StageView::DropTemp(rejection), ..r },
                rejection,
            )
        }),
{
    assert(d4 =~= disk);
}

/// What a successful write leaves: the content under its name, and the bytes it replaced
/// under the name of the backup. Nothing else in the directory changes.
pub proof fn installed_config_and_backup(
    r: ApplyRunView,
    disk: Map<Seq<char>, Seq<u8>>,
    prior: Seq<u8>,
    d1: Map<Seq<char>, Seq<u8>>,
    d2: Map<Seq<char>, Seq<u8>>,
    d3: Map<Seq<char>, Seq<u8>>,
    d4: Map<Seq<char>, Seq<u8>>,
    d5: Map<Seq<char>, Seq<u8>>,
)
    requires
        apply_wf(r),
        r.stage is ReadPrior,
        !is_hidden(current_name(r)),
        answers(disk, apply_step(r), AnswerView::Bytes(prior), d1),
        ({
            let r1 = apply_answer(r, AnswerView::Bytes(prior));
            let r2 = apply_answer(r1, AnswerView::Done);
            let r3 = apply_answer(r2, AnswerView::Done);
            let r4 = apply_answer(r3, AnswerView::Done);
            &&& answers(d1, apply_step(r1), AnswerView::Done, d2)
            &&& answers(d2, apply_step(r2), AnswerView::Done, d3)
            &&& answers(d3, apply_step(r3), AnswerView::Done, d4)
            &&& answers(d4, apply_step(r4), AnswerView::Done, d5)
        }),
    ensures
        d5 == disk.insert(backup_name(current_name(r), r.stamp, r.txn.pid), prior).insert(
            current_name(r),
            r.ops[r.next as int].content,
        ),
{
    let name = current_name(r);
    scaffolding_is_hidden(name, r.stamp, r.txn.pid);
    assert(d5 =~= disk.insert(backup_name(name, r.stamp, r.txn.pid), prior).insert(
        name,
        r.ops[r.next as int].content,
    ));
}

/// What a successful write of a new file leaves: the content under its name. There is no
/// backup, and nothing else in the directory changes.
pub proof fn new_config_has_no_backup(
    r: ApplyRunView,
    disk: Map<Seq<char>, Seq<u8>>,
    d1: Map<Seq<char>, Seq<u8>>,
    d2: Map<Seq<char>, Seq<u8>>,
    d3: Map<Seq<char>, Seq<u8>>,
    d4: Map<Seq<char>, Seq<u8>>,
)
    requires
        apply_wf(r),
        r.stage is ReadPrior,
        !is_hidden(current_name(r)),
        answers(disk, apply_step(r), AnswerView::Missing, d1),
        ({
            let r1 = apply_answer(r, AnswerView::Missing);
            let r2 = apply_answer(r1, AnswerView::Done);
            let r3 = apply_answer(r2, AnswerView::Done);
            &&& answers(d1, apply_step(r1), AnswerView::Done, d2)
            &&& answers(d2, apply_step(r2), AnswerView::Done, d3)
            &&& answers(d3, apply_step(r3), AnswerView::Done, d4)
        }),
    ensures
        d4 == disk.insert(current_name(r), r.ops[r.next as int].content),
        ({
            let r1 = apply_answer(r, AnswerView::Missing);
            let r2 = apply_answer(r1, AnswerView::Done);
            let r3 = apply_answer(r2, AnswerView::Done);
            apply_answer(r3, AnswerView::Done) == apply_installed(r3, PriorView::Absent, None)
        }),
{
    let name = current_name(r);
    scaffolding_is_hidden(name, r.stamp, r.txn.pid);
    assert(d4 =~= disk.insert(name, r.ops[r.next as int].content));
}

/// A delete that went through leaves the backup with the bytes that were live, and the
/// revert of it leads back to what keyd saw before.
pub proof fn deleted_config_can_be_restored(
    r: DeleteRunView,
    disk: Map<Seq<char>, Seq<u8>>,
    prior: Seq<u8>,
    d1: Map<Seq<char>, Seq<u8>>,
    d2: Map<Seq<char>, Seq<u8>>,
    d3: Map<Seq<char>, Seq<u8>>,
)
    requires
        r.stage is ReadPrior,
        r.txn.applied.len() == 0,
        r.txn.undo is Idle,
        !is_hidden(r.name),
        answers(disk, delete_step(r), AnswerView::Bytes(prior), d1),
        ({
            let r1 = delete_answer(r, AnswerView::Bytes(prior));
            let r2 = delete_answer(r1, AnswerView::Done);
            &&& answers(d1, delete_step(r1), AnswerView::Done, d2)
            &&& answers(d2, delete_step(r2), AnswerView::Done, d3)
        }),
    ensures
        d3 == disk.remove(r.name).insert(backup_name(r.name, r.stamp, r.txn.pid), prior),
        ({
            let r1 = delete_answer(r, AnswerView::Bytes(prior));
            let r2 = delete_answer(r1, AnswerView::Done);
            let r3 = delete_answer(r2, AnswerView::Done);
            r3.stage is Done && undo_leads_to(undo_next(r3.txn), d3, disk)
        }),
{
    let bak = backup_name(r.name, r.stamp, r.txn.pid);
    scaffolding_is_hidden(r.name, r.stamp, r.txn.pid);
    assert(d3 =~= disk.remove(r.name).insert(bak, prior));
    let r1 = delete_answer(r, AnswerView::Bytes(prior));
    let r2 = delete_answer(r1, AnswerView::Done);
    let r3 = delete_answer(r2, AnswerView::Done);
    let a = r3.txn.applied[0];
    assert(undo_one(visible(d3), a) =~= visible(disk));
    assert(r3.txn.applied.drop_last() =~= Seq::<AppliedView>::empty());
    assert(undo_all(visible(d3), r3.txn.applied) == undo_all(
        undo_one(visible(d3), a),
        r3.txn.applied.drop_last(),
    ));
    assert(targets_visible(r3.txn.applied));
    undo_next_leads_on(r3.txn, d3, disk);
}

/// A delete that fails leaves the directory exactly as it was, provided the steps that
/// fail leave nothing behind and the backup is removed again.
pub proof fn failed_delete_leaves_no_debris(
    r: DeleteRunView,
    disk: Map<Seq<char>, Seq<u8>>,
    prior: Seq<u8>,
    refusal: FaultView,
    d1: Map<Seq<char>, Seq<u8>>,
    d2: Map<Seq<char>, Seq<u8>>,
    d3: Map<Seq<char>, Seq<u8>>,
    d4: Map<Seq<char>, Seq<u8>>,
)
    requires
        r.stage is ReadPrior,
        answers(disk, delete_step(r), AnswerView::Bytes(prior), d1),
        ({
            let r1 = delete_answer(r, AnswerView::Bytes(prior));
            let r2 = delete_answer(r1, AnswerView::Done);
            let r3 = delete_answer(r2, AnswerView::Failed(refusal));
            &&& answers(d1, delete_step(r1), AnswerView::Done, d2)
            &&& answers(d2, delete_step(r2), AnswerView::Failed(refusal), d3)
            &&& answers(d3, delete_step(r3), AnswerView::Done, d4)
        }),
    ensures
        d4 == disk,
        ({
            let r1 = delete_answer(r, AnswerView::Bytes(prior));
            let r2 = delete_answer(r1, AnswerView::Done);
            let r3 = delete_answer(r2, AnswerView::Failed(refusal));
            delete_answer(r3, AnswerView::Done).stage == DeleteStageView::Failed(refusal)
        }),
{
    assert(d4 =~= disk);
}

/// A kept transaction has nothing left to revert: reverting it is over at once, without
/// a step.
pub proof fn kept_is_never_reverted(t: TxnView)
    requires
        t.applied.len() == 0,
    ensures
        undo_next(t).undo is Done,
        undo_step(undo_next(t)) is Finished,
{
}

} // verus!
