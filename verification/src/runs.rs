//! Whole runs of a transaction: what a write-set, a delete or a revert comes to from its
//! first step to its last, whatever the directory answers on the way.

use crate::fault::FaultView;
use crate::txn;
use crate::txn::AnswerView;
use crate::txn::AppliedView;
use crate::txn::ApplyRunView;
use crate::txn::DeleteRunView;
use crate::txn::DeleteStageView;
use crate::txn::PriorView;
use crate::txn::StageView;
use crate::txn::StepView;
use crate::txn::TxnView;
use crate::txn::UndoView;
use crate::txn::WriteOpView;
use vstd::prelude::*;

verus! {

// ---------------------------------------------------------------------------
// Reverting
// ---------------------------------------------------------------------------

/// A revert after the answers.
pub open spec fn undone(t: TxnView, ans: Seq<AnswerView>) -> TxnView
    decreases ans.len(),
{
    if ans.len() == 0 {
        t
    } else {
        txn::undo_answer(undone(t, ans.drop_last()), ans.last())
    }
}

/// The directory goes through `disks` while it answers the steps of a revert with `ans`.
pub open spec fn undo_goes(
    t: TxnView,
    ans: Seq<AnswerView>,
    disks: Seq<Map<Seq<char>, Seq<u8>>>,
) -> bool
    decreases ans.len(),
{
    &&& disks.len() == ans.len() + 1
    &&& ans.len() > 0 ==> undo_goes(t, ans.drop_last(), disks.drop_last()) && txn::answers(
        disks[disks.len() - 2],
        txn::undo_step(undone(t, ans.drop_last())),
        ans.last(),
        disks.last(),
    )
}

/// No step failed.
pub open spec fn all_went_well(ans: Seq<AnswerView>) -> bool {
    forall|i: int| 0 <= i < ans.len() ==> !(#[trigger] ans[i] is Failed)
}

/// How many steps a revert has left at most.
pub open spec fn undo_left(t: TxnView) -> nat {
    2 * t.applied.len() + (match t.undo {
        UndoView::Restoring(_) => 2nat,
        UndoView::Replacing(_) => 1nat,
        UndoView::Removing(_) => 1nat,
        _ => 0nat,
    })
}

/// A revert ends: it takes at most two steps for each write.
pub proof fn a_revert_ends(
    t: TxnView,
    ans: Seq<AnswerView>,
    disks: Seq<Map<Seq<char>, Seq<u8>>>,
)
    requires
        undo_goes(t, ans, disks),
    ensures
        ans.len() + undo_left(undone(t, ans)) <= undo_left(t),
    decreases ans.len(),
{
    if ans.len() > 0 {
        a_revert_ends(t, ans.drop_last(), disks.drop_last());
    }
}

/// Where the rest of a revert takes the directory if no step fails.
spec fn bound_for(t: TxnView, disk: Map<Seq<char>, Seq<u8>>) -> Map<Seq<char>, Seq<u8>> {
    match t.undo {
        UndoView::Idle => txn::undo_all(disk, t.applied),
        UndoView::Restoring(a) => txn::undo_all(txn::undo_one(disk, a), t.applied),
        UndoView::Replacing(a) => txn::undo_all(
            txn::undo_one(disk.remove(txn::rev_name(a.name, t.pid)), a),
            t.applied,
        ),
        UndoView::Removing(a) => txn::undo_all(txn::undo_one(disk, a), t.applied),
        _ => disk,
    }
}

/// What a revert holds agrees with what it has done so far.
spec fn undo_fits(t: TxnView, disk: Map<Seq<char>, Seq<u8>>) -> bool {
    match t.undo {
        UndoView::Done => t.applied.len() == 0,
        UndoView::Restoring(a) => a.prior is Existed,
        UndoView::Replacing(a) => {
            let rev = txn::rev_name(a.name, t.pid);
            disk.contains_key(rev) && a.prior == PriorView::Existed(disk[rev])
        },
        UndoView::Removing(a) => a.prior is Absent,
        _ => true,
    }
}

/// The scaffolding of a name is hidden, and never the name itself.
proof fn scaffolding_is_apart(name: Seq<char>, stamp: nat, pid: nat)
    ensures
        txn::is_hidden(txn::temp_name(name, pid)),
        txn::is_hidden(txn::backup_name(name, stamp, pid)),
        name != txn::temp_name(name, pid),
        name != txn::rev_name(name, pid),
        name != txn::backup_name(name, stamp, pid),
{
    reveal_strlit(".");
    assert(txn::temp_name(name, pid).len() > name.len());
    assert(txn::rev_name(name, pid).len() > name.len());
    assert(txn::backup_name(name, stamp, pid).len() > name.len());
}

proof fn revert_stays_bound(
    t: TxnView,
    disk: Map<Seq<char>, Seq<u8>>,
    ans: AnswerView,
    after: Map<Seq<char>, Seq<u8>>,
)
    requires
        undo_fits(t, disk),
        txn::answers(disk, txn::undo_step(t), ans, after),
    ensures
        undo_fits(txn::undo_answer(t, ans), after),
        ans is Failed <==> txn::undo_answer(t, ans).undo is Failed,
        !(ans is Failed) ==> bound_for(txn::undo_answer(t, ans), after) == bound_for(t, disk),
        !(txn::undo_answer(t, ans).undo is Idle),
{
    match t.undo {
        UndoView::Restoring(a) => {
            if !(ans is Failed) {
                assert(after.remove(txn::rev_name(a.name, t.pid)) =~= disk);
            }
        },
        UndoView::Replacing(a) => {
            scaffolding_is_apart(a.name, 0, t.pid);
            if !(ans is Failed) {
                assert(after =~= txn::undo_one(disk.remove(txn::rev_name(a.name, t.pid)), a));
            }
        },
        UndoView::Removing(a) => {
            if !(ans is Failed) {
                assert(after =~= txn::undo_one(disk, a));
            }
        },
        _ => {},
    }
}

proof fn reverts_as_bound(
    t: TxnView,
    ans: Seq<AnswerView>,
    disks: Seq<Map<Seq<char>, Seq<u8>>>,
)
    requires
        undo_goes(t, ans, disks),
        undo_fits(t, disks[0]),
        !(t.undo is Idle),
        !(t.undo is Failed),
        all_went_well(ans),
    ensures
        undo_fits(undone(t, ans), disks.last()),
        bound_for(undone(t, ans), disks.last()) == bound_for(t, disks[0]),
        !(undone(t, ans).undo is Idle),
        !(undone(t, ans).undo is Failed),
    decreases ans.len(),
{
    if ans.len() > 0 {
        let front = ans.drop_last();
        assert forall|i: int| 0 <= i < front.len() implies !(#[trigger] front[i] is Failed) by {
            assert(front[i] == ans[i]);
        }
        assert(!(ans[ans.len() - 1] is Failed));
        reverts_as_bound(t, front, disks.drop_last());
        let mid = disks[disks.len() - 2];
        assert(disks.drop_last().last() == mid);
        revert_stays_bound(undone(t, front), mid, ans.last(), disks.last());
    }
}

proof fn over_takes_no_step(
    t: TxnView,
    ans: Seq<AnswerView>,
    disks: Seq<Map<Seq<char>, Seq<u8>>>,
)
    requires
        txn::undo_over(t),
        undo_goes(t, ans, disks),
    ensures
        ans.len() == 0,
    decreases ans.len(),
{
    if ans.len() > 0 {
        over_takes_no_step(t, ans.drop_last(), disks.drop_last());
    }
}

/// What a revert comes to whose steps all go well: it reports success, the whole directory
/// is as it should be, nothing is left to revert, and a second revert takes no step.
pub open spec fn reverted(
    t: TxnView,
    disk: Map<Seq<char>, Seq<u8>>,
    should: Map<Seq<char>, Seq<u8>>,
) -> bool {
    &&& t.undo is Done
    &&& t.applied.len() == 0
    &&& disk == should
    &&& txn::undo_next(t).undo is Done
    &&& txn::undo_step(txn::undo_next(t)) is Finished
}

/// However the scope of a transaction is left, what was not kept is undone and what was
/// kept stays: the revert that runs then, its steps going well, undoes every write, most
/// recent first, and changes nothing else in the directory; behind a keep it takes no step,
/// so that no file changes.
pub proof fn leaving_undoes_unless_kept(
    t: TxnView,
    ans: Seq<AnswerView>,
    disks: Seq<Map<Seq<char>, Seq<u8>>>,
    kept: bool,
)
    requires
        ({
            let left = if kept {
                TxnView { applied: Seq::empty(), ..t }
            } else {
                t
            };
            &&& undo_goes(txn::undo_next(left), ans, disks)
            &&& txn::undo_over(undone(txn::undo_next(left), ans))
        }),
        all_went_well(ans),
    ensures
        !kept ==> reverted(
            undone(txn::undo_next(t), ans),
            disks.last(),
            txn::undo_all(disks[0], t.applied),
        ),
        kept ==> ans.len() == 0 && disks.last() == disks[0],
{
    if kept {
        let left = TxnView { applied: Seq::empty(), ..t };
        over_takes_no_step(txn::undo_next(left), ans, disks);
    } else {
        reverts_as_bound(txn::undo_next(t), ans, disks);
    }
}

// ---------------------------------------------------------------------------
// Write-sets
// ---------------------------------------------------------------------------

/// A write-set after the answers.
pub open spec fn applied_over(r: ApplyRunView, ans: Seq<AnswerView>) -> ApplyRunView
    decreases ans.len(),
{
    if ans.len() == 0 {
        r
    } else {
        txn::apply_answer(applied_over(r, ans.drop_last()), ans.last())
    }
}

/// The directory goes through `disks` while it answers the steps of a write-set with
/// `ans`.
pub open spec fn apply_goes(
    r: ApplyRunView,
    ans: Seq<AnswerView>,
    disks: Seq<Map<Seq<char>, Seq<u8>>>,
) -> bool
    decreases ans.len(),
{
    &&& disks.len() == ans.len() + 1
    &&& ans.len() > 0 ==> apply_goes(r, ans.drop_last(), disks.drop_last()) && txn::answers(
        disks[disks.len() - 2],
        txn::apply_step(applied_over(r, ans.drop_last())),
        ans.last(),
        disks.last(),
    )
}

/// A step that only looks at the directory.
pub open spec fn is_look(step: StepView) -> bool {
    step is Read || step is Check
}

/// No step of a write-set failed that changes the directory: at most a target could not be
/// read, or a content was rejected.
pub open spec fn only_looks_failed(r: ApplyRunView, ans: Seq<AnswerView>) -> bool
    decreases ans.len(),
{
    ans.len() > 0 ==> only_looks_failed(r, ans.drop_last()) && (ans.last() is Failed ==> is_look(
        txn::apply_step(applied_over(r, ans.drop_last())),
    ))
}

/// What stands under a name.
pub open spec fn prior_in(files: Map<Seq<char>, Seq<u8>>, name: Seq<char>) -> PriorView {
    if files.contains_key(name) {
        PriorView::Existed(files[name])
    } else {
        PriorView::Absent
    }
}

/// The directory with what stands under `name`, if anything does, copied to `backup`.
pub open spec fn backed_up(
    files: Map<Seq<char>, Seq<u8>>,
    name: Seq<char>,
    backup: Seq<char>,
) -> Map<Seq<char>, Seq<u8>> {
    if files.contains_key(name) {
        files.insert(backup, files[name])
    } else {
        files
    }
}

/// The directory with the first `n` writes in place: each content under its name, where a
/// later write of the same name wins, and the bytes it replaced, if any, under the name of
/// the backup.
pub open spec fn installed(
    files: Map<Seq<char>, Seq<u8>>,
    ops: Seq<WriteOpView>,
    stamp: nat,
    pid: nat,
    n: nat,
) -> Map<Seq<char>, Seq<u8>>
    decreases n,
{
    if n == 0 {
        files
    } else {
        let op = ops[n - 1];
        backed_up(
            installed(files, ops, stamp, pid, (n - 1) as nat),
            op.name,
            txn::backup_name(op.name, stamp, pid),
        ).insert(op.name, op.content)
    }
}

/// The directory with the backups that the first `n` writes made, and nothing else of them.
pub open spec fn with_backups(
    files: Map<Seq<char>, Seq<u8>>,
    ops: Seq<WriteOpView>,
    stamp: nat,
    pid: nat,
    n: nat,
) -> Map<Seq<char>, Seq<u8>>
    decreases n,
{
    if n == 0 {
        files
    } else {
        let op = ops[n - 1];
        let before = installed(files, ops, stamp, pid, (n - 1) as nat);
        let rest = with_backups(files, ops, stamp, pid, (n - 1) as nat);
        if before.contains_key(op.name) {
            rest.insert(txn::backup_name(op.name, stamp, pid), before[op.name])
        } else {
            rest
        }
    }
}

/// What is recorded of write `i`: what it replaced, and the backup where there was
/// anything.
pub open spec fn record_of(
    files: Map<Seq<char>, Seq<u8>>,
    ops: Seq<WriteOpView>,
    stamp: nat,
    pid: nat,
    i: int,
) -> AppliedView {
    let prior = prior_in(installed(files, ops, stamp, pid, i as nat), ops[i].name);
    AppliedView {
        name: ops[i].name,
        prior,
        backup: if prior is Existed {
            Some(txn::backup_name(ops[i].name, stamp, pid))
        } else {
            None
        },
    }
}

/// What is recorded of the first `n` writes.
pub open spec fn records(
    files: Map<Seq<char>, Seq<u8>>,
    ops: Seq<WriteOpView>,
    stamp: nat,
    pid: nat,
    n: nat,
) -> Seq<AppliedView> {
    Seq::new(n, |i: int| record_of(files, ops, stamp, pid, i))
}

/// The two directories agree on the name.
spec fn same_at(
    a: Map<Seq<char>, Seq<u8>>,
    b: Map<Seq<char>, Seq<u8>>,
    name: Seq<char>,
) -> bool {
    a.contains_key(name) == b.contains_key(name) && (a.contains_key(name) ==> a[name] == b[name])
}

/// On the name, `left` is as `kept` where the name is in `known`, and else as `disk`.
spec fn settled_at(
    left: Map<Seq<char>, Seq<u8>>,
    known: Map<Seq<char>, Seq<u8>>,
    kept: Map<Seq<char>, Seq<u8>>,
    disk: Map<Seq<char>, Seq<u8>>,
    name: Seq<char>,
) -> bool {
    if known.contains_key(name) {
        same_at(left, kept, name)
    } else {
        same_at(left, disk, name)
    }
}

/// Every file of `files` is in `more`, with its bytes.
pub open spec fn holds_all(
    more: Map<Seq<char>, Seq<u8>>,
    files: Map<Seq<char>, Seq<u8>>,
) -> bool {
    forall|k: Seq<char>| #[trigger]
        files.contains_key(k) ==> more.contains_key(k) && more[k] == files[k]
}

/// `more` is `files` with at most the two names added.
pub open spec fn adds_at_most(
    more: Map<Seq<char>, Seq<u8>>,
    files: Map<Seq<char>, Seq<u8>>,
    one: Seq<char>,
    other: Seq<char>,
) -> bool {
    &&& holds_all(more, files)
    &&& forall|k: Seq<char>| #[trigger]
        more.contains_key(k) ==> files.contains_key(k) || k == one || k == other
}

/// The backups that the first `n` writes made were new files.
spec fn backups_new(
    files: Map<Seq<char>, Seq<u8>>,
    ops: Seq<WriteOpView>,
    stamp: nat,
    pid: nat,
    n: nat,
) -> bool
    decreases n,
{
    n > 0 ==> {
        let name = ops[n - 1].name;
        let before = installed(files, ops, stamp, pid, (n - 1) as nat);
        &&& backups_new(files, ops, stamp, pid, (n - 1) as nat)
        &&& before.contains_key(name) ==> !before.contains_key(
            txn::backup_name(name, stamp, pid),
        )
    }
}

proof fn backups_are_installed(
    files: Map<Seq<char>, Seq<u8>>,
    ops: Seq<WriteOpView>,
    stamp: nat,
    pid: nat,
    n: nat,
)
    ensures
        forall|k: Seq<char>| #[trigger]
            with_backups(files, ops, stamp, pid, n).contains_key(k) ==> installed(
                files,
                ops,
                stamp,
                pid,
                n,
            ).contains_key(k),
    decreases n,
{
    if n > 0 {
        let m = (n - 1) as nat;
        backups_are_installed(files, ops, stamp, pid, m);
        let all = installed(files, ops, stamp, pid, n);
        assert forall|k: Seq<char>| #[trigger]
            with_backups(files, ops, stamp, pid, n).contains_key(k) implies all.contains_key(
            k,
        ) by {
            let rest = with_backups(files, ops, stamp, pid, m);
            assert(rest.contains_key(k) ==> installed(files, ops, stamp, pid, m).contains_key(k));
        }
    }
}

/// Undoing the writes takes back all but the backups, and touches no file beside them.
proof fn undoing_leaves_backups(
    files: Map<Seq<char>, Seq<u8>>,
    ops: Seq<WriteOpView>,
    stamp: nat,
    pid: nat,
    n: nat,
    disk: Map<Seq<char>, Seq<u8>>,
)
    requires
        backups_new(files, ops, stamp, pid, n),
        holds_all(disk, installed(files, ops, stamp, pid, n)),
    ensures
        ({
            let all = installed(files, ops, stamp, pid, n);
            let left = txn::undo_all(disk, records(files, ops, stamp, pid, n));
            forall|k: Seq<char>| #[trigger]
                settled_at(left, all, with_backups(files, ops, stamp, pid, n), disk, k)
        }),
    decreases n,
{
    let done = records(files, ops, stamp, pid, n);
    if n > 0 {
        let m = (n - 1) as nat;
        let a = record_of(files, ops, stamp, pid, m as int);
        let before = installed(files, ops, stamp, pid, m);
        let bak = txn::backup_name(a.name, stamp, pid);
        let one = txn::undo_one(disk, a);
        scaffolding_is_apart(a.name, stamp, pid);
        assert(done.drop_last() =~= records(files, ops, stamp, pid, m));
        assert(done.last() == a);
        assert forall|k: Seq<char>| #[trigger] before.contains_key(k) implies one.contains_key(k)
            && one[k] == before[k] by {
            assert(installed(files, ops, stamp, pid, n).contains_key(k));
        }
        undoing_leaves_backups(files, ops, stamp, pid, m, one);
        backups_are_installed(files, ops, stamp, pid, m);
        let all = installed(files, ops, stamp, pid, n);
        let left = txn::undo_all(disk, done);
        assert(left == txn::undo_all(one, records(files, ops, stamp, pid, m)));
        assert forall|k: Seq<char>| #[trigger]
            settled_at(left, all, with_backups(files, ops, stamp, pid, n), disk, k) by {
            assert(settled_at(left, before, with_backups(files, ops, stamp, pid, m), one, k));
            assert(all.contains_key(k) ==> disk.contains_key(k) && disk[k] == all[k]);
        }
    } else {
        assert(done =~= Seq::<AppliedView>::empty());
    }
}

/// Where a write-set stands in the directory that it began in as `first`. It is tidy as
/// long as no step failed that changes the directory.
spec fn on_course(
    r: ApplyRunView,
    disk: Map<Seq<char>, Seq<u8>>,
    first: Map<Seq<char>, Seq<u8>>,
    tidy: bool,
) -> bool {
    let name = txn::current_name(r);
    let temp = txn::temp_name(name, r.txn.pid);
    let bak = txn::backup_name(name, r.stamp, r.txn.pid);
    let content = r.ops[r.next as int].content;
    let before = installed(first, r.ops, r.stamp, r.txn.pid, r.next);
    let baks = with_backups(first, r.ops, r.stamp, r.txn.pid, r.next);
    let prior = prior_in(before, name);
    let open = r.txn.undo is Idle && r.txn.applied == records(
        first,
        r.ops,
        r.stamp,
        r.txn.pid,
        r.next,
    );
    &&& txn::apply_wf(r)
    &&& r.next <= r.ops.len()
    &&& backups_new(first, r.ops, r.stamp, r.txn.pid, r.next)
    &&& match r.stage {
        StageView::ReadPrior => open && disk == before,
        StageView::WriteTemp(p) => open && disk == before && p == prior,
        StageView::CheckTemp(p) => open && !before.contains_key(temp) && disk == before.insert(
            temp,
            content,
        ) && p == prior,
        StageView::WriteBackup(b) => open && !before.contains_key(temp) && disk == before.insert(
            temp,
            content,
        ) && prior == PriorView::Existed(b),
        StageView::DropTemp(_) => open && !before.contains_key(temp) && adds_at_most(
            disk,
            before,
            temp,
            bak,
        ) && (tidy ==> disk == before.insert(temp, content)),
        StageView::Install(p, b) => {
            let backed = backed_up(before, name, bak);
            &&& open
            &&& p == prior
            &&& b == (if prior is Existed {
                Some(bak)
            } else {
                None
            })
            &&& !backed.contains_key(temp)
            &&& disk == backed.insert(temp, content)
            &&& prior is Existed ==> !before.contains_key(bak)
        },
        StageView::Undoing(_) => {
            &&& undo_fits(r.txn, disk)
            &&& !txn::undo_over(r.txn)
            &&& adds_at_most(bound_for(r.txn, disk), baks, temp, bak)
            &&& tidy ==> bound_for(r.txn, disk) == baks
        },
        StageView::Done => open && disk == before && r.next == r.ops.len(),
        StageView::Failed(_) => r.txn.undo is Failed || {
            &&& r.txn.undo is Done
            &&& r.txn.applied.len() == 0
            &&& adds_at_most(disk, baks, temp, bak)
            &&& tidy ==> disk == baks
        },
    }
}

/// A failure turns a write-set back towards the directory with no more than its backups.
proof fn turns_back(
    r: ApplyRunView,
    disk: Map<Seq<char>, Seq<u8>>,
    first: Map<Seq<char>, Seq<u8>>,
    f: FaultView,
    tidy: bool,
)
    requires
        r.next < r.ops.len(),
        backups_new(first, r.ops, r.stamp, r.txn.pid, r.next),
        r.txn.undo is Idle,
        r.txn.applied == records(first, r.ops, r.stamp, r.txn.pid, r.next),
        ({
            let name = txn::current_name(r);
            let before = installed(first, r.ops, r.stamp, r.txn.pid, r.next);
            &&& adds_at_most(
                disk,
                before,
                txn::temp_name(name, r.txn.pid),
                txn::backup_name(name, r.stamp, r.txn.pid),
            )
            &&& tidy ==> disk == before
        }),
    ensures
        on_course(txn::apply_failed(r, f), disk, first, tidy),
{
    let before = installed(first, r.ops, r.stamp, r.txn.pid, r.next);
    let baks = with_backups(first, r.ops, r.stamp, r.txn.pid, r.next);
    let left = txn::undo_all(disk, r.txn.applied);
    undoing_leaves_backups(first, r.ops, r.stamp, r.txn.pid, r.next, disk);
    backups_are_installed(first, r.ops, r.stamp, r.txn.pid, r.next);
    assert forall|k: Seq<char>| #[trigger] baks.contains_key(k) implies left.contains_key(k)
        && left[k] == baks[k] by {
        assert(settled_at(left, before, baks, disk, k));
    }
    assert forall|k: Seq<char>| #[trigger] left.contains_key(k) implies baks.contains_key(k) || k
        == txn::temp_name(txn::current_name(r), r.txn.pid) || k == txn::backup_name(
        txn::current_name(r),
        r.stamp,
        r.txn.pid,
    ) by {
        assert(settled_at(left, before, baks, disk, k));
    }
    if tidy {
        assert forall|k: Seq<char>| #[trigger] left.contains_key(k) implies baks.contains_key(
            k,
        ) by {
            assert(settled_at(left, before, baks, disk, k));
        }
        assert(left =~= baks);
    }
    assert(bound_for(txn::undo_next(r.txn), disk) == left);
}

proof fn stays_on_course(
    r: ApplyRunView,
    disk: Map<Seq<char>, Seq<u8>>,
    first: Map<Seq<char>, Seq<u8>>,
    ans: AnswerView,
    after: Map<Seq<char>, Seq<u8>>,
    tidy: bool,
)
    requires
        on_course(r, disk, first, tidy),
        txn::answers(disk, txn::apply_step(r), ans, after),
    ensures
        on_course(
            txn::apply_answer(r, ans),
            after,
            first,
            tidy && (ans is Failed ==> is_look(txn::apply_step(r))),
        ),
{
    let name = txn::current_name(r);
    let temp = txn::temp_name(name, r.txn.pid);
    let bak = txn::backup_name(name, r.stamp, r.txn.pid);
    let before = installed(first, r.ops, r.stamp, r.txn.pid, r.next);
    let content = r.ops[r.next as int].content;
    let still = tidy && (ans is Failed ==> is_look(txn::apply_step(r)));
    scaffolding_is_apart(name, r.stamp, r.txn.pid);
    match r.stage {
        StageView::ReadPrior => {
            if let AnswerView::Failed(f) = ans {
                turns_back(r, after, first, f, still);
            }
        },
        StageView::WriteTemp(_) => {
            if let AnswerView::Failed(f) = ans {
                turns_back(r, after, first, f, still);
            }
        },
        StageView::CheckTemp(_) => {},
        StageView::WriteBackup(b) => {
            if !(ans is Failed) {
                assert(after =~= before.insert(bak, b).insert(temp, content));
            }
        },
        StageView::DropTemp(f) => {
            if still {
                assert(after =~= before);
            }
            turns_back(r, after, first, f, still);
        },
        StageView::Install(p, b) => {
            let backed = backed_up(before, name, bak);
            if let AnswerView::Failed(f) = ans {
                turns_back(r, after, first, f, still);
            } else {
                assert(after =~= backed.insert(name, content));
                assert(txn::apply_answer(r, ans).txn.applied =~= records(
                    first,
                    r.ops,
                    r.stamp,
                    r.txn.pid,
                    r.next + 1,
                ));
            }
        },
        StageView::Undoing(_) => {
            revert_stays_bound(r.txn, disk, ans, after);
        },
        _ => {},
    }
}

proof fn apply_leads_on(
    r: ApplyRunView,
    ans: Seq<AnswerView>,
    disks: Seq<Map<Seq<char>, Seq<u8>>>,
    first: Map<Seq<char>, Seq<u8>>,
)
    requires
        apply_goes(r, ans, disks),
        on_course(r, disks[0], first, true),
    ensures
        on_course(applied_over(r, ans), disks.last(), first, only_looks_failed(r, ans)),
        applied_over(r, ans).ops == r.ops,
        applied_over(r, ans).stamp == r.stamp,
        applied_over(r, ans).txn.pid == r.txn.pid,
    decreases ans.len(),
{
    if ans.len() > 0 {
        let front = ans.drop_last();
        apply_leads_on(r, front, disks.drop_last(), first);
        let mid = disks[disks.len() - 2];
        assert(disks.drop_last().last() == mid);
        stays_on_course(
            applied_over(r, front),
            mid,
            first,
            ans.last(),
            disks.last(),
            only_looks_failed(r, front),
        );
    }
}

proof fn apply_begins(ops: Seq<WriteOpView>, stamp: nat, pid: nat, first: Map<Seq<char>, Seq<u8>>)
    ensures
        on_course(txn::apply_start(ops, stamp, pid), first, first, true),
{
    assert(records(first, ops, stamp, pid, 0) =~= Seq::<AppliedView>::empty());
}

/// No write goes to the name.
pub open spec fn unwritten(ops: Seq<WriteOpView>, name: Seq<char>) -> bool {
    forall|i: int| 0 <= i < ops.len() ==> #[trigger] ops[i].name != name
}

/// The backup of a write, where it has one, is in the directory with the bytes that the
/// write replaced.
pub open spec fn backup_holds(a: AppliedView, disk: Map<Seq<char>, Seq<u8>>) -> bool {
    match a.backup {
        Some(b) => disk.contains_key(b) && a.prior == PriorView::Existed(disk[b]),
        None => true,
    }
}

proof fn backups_hold(
    files: Map<Seq<char>, Seq<u8>>,
    ops: Seq<WriteOpView>,
    stamp: nat,
    pid: nat,
    n: nat,
    i: int,
)
    requires
        0 <= i < n <= ops.len(),
        backups_new(files, ops, stamp, pid, n),
        unwritten(ops, txn::backup_name(ops[i].name, stamp, pid)),
    ensures
        backup_holds(
            record_of(files, ops, stamp, pid, i),
            installed(files, ops, stamp, pid, n),
        ),
    decreases n,
{
    assert(ops[n - 1].name != txn::backup_name(ops[i].name, stamp, pid));
    if i < n - 1 {
        backups_hold(files, ops, stamp, pid, (n - 1) as nat, i);
    }
}

/// What a write-set leaves that went through, of the whole directory: every content under
/// its name, the bytes that were replaced under the names of their backups, and nothing
/// else changed, no temp file among it. Each write is recorded with what it replaced, and
/// its backup stands, unless a write of the set goes to the backup's own name.
pub proof fn a_whole_set_is_installed(
    ops: Seq<WriteOpView>,
    stamp: nat,
    pid: nat,
    ans: Seq<AnswerView>,
    disks: Seq<Map<Seq<char>, Seq<u8>>>,
)
    requires
        apply_goes(txn::apply_start(ops, stamp, pid), ans, disks),
        applied_over(txn::apply_start(ops, stamp, pid), ans).stage is Done,
    ensures
        disks.last() == installed(disks[0], ops, stamp, pid, ops.len()),
        applied_over(txn::apply_start(ops, stamp, pid), ans).txn.applied == records(
            disks[0],
            ops,
            stamp,
            pid,
            ops.len(),
        ),
        forall|i: int|
            0 <= i < ops.len() && unwritten(
                ops,
                txn::backup_name(#[trigger] ops[i].name, stamp, pid),
            ) ==> backup_holds(record_of(disks[0], ops, stamp, pid, i), disks.last()),
{
    apply_begins(ops, stamp, pid, disks[0]);
    apply_leads_on(txn::apply_start(ops, stamp, pid), ans, disks, disks[0]);
    assert forall|i: int|
        0 <= i < ops.len() && unwritten(
            ops,
            txn::backup_name(#[trigger] ops[i].name, stamp, pid),
        ) implies backup_holds(record_of(disks[0], ops, stamp, pid, i), disks.last()) by {
        backups_hold(disks[0], ops, stamp, pid, ops.len(), i);
    }
}

/// The backups are hidden: keyd sees the same files with and without them, and a name that
/// is no backup's holds what it held.
pub proof fn backups_are_not_seen(
    files: Map<Seq<char>, Seq<u8>>,
    ops: Seq<WriteOpView>,
    stamp: nat,
    pid: nat,
    n: nat,
)
    requires
        n <= ops.len(),
    ensures
        txn::visible(with_backups(files, ops, stamp, pid, n)) == txn::visible(files),
        forall|k: Seq<char>|
            (forall|i: int|
                0 <= i < n ==> k != txn::backup_name((#[trigger] ops[i]).name, stamp, pid))
                ==> prior_in(#[trigger] with_backups(files, ops, stamp, pid, n), k) == prior_in(
                files,
                k,
            ),
    decreases n,
{
    if n > 0 {
        let m = (n - 1) as nat;
        backups_are_not_seen(files, ops, stamp, pid, m);
        let now = with_backups(files, ops, stamp, pid, n);
        let rest = with_backups(files, ops, stamp, pid, m);
        scaffolding_is_apart(ops[m as int].name, stamp, pid);
        assert(txn::visible(now) =~= txn::visible(rest));
        assert forall|k: Seq<char>|
            (forall|i: int|
                0 <= i < n ==> k != txn::backup_name((#[trigger] ops[i]).name, stamp, pid))
            implies prior_in(now, k) == prior_in(files, k) by {
            assert(k != txn::backup_name(ops[m as int].name, stamp, pid));
            assert(prior_in(rest, k) == prior_in(files, k));
        }
    }
}

/// All or nothing, from the first step to the last: a write-set that failed, no step of
/// its own revert having failed, leaves the directory as it was but for the backups of the
/// writes that were taken back, and at most the temp file and the backup of the write that
/// failed. Those stay only where a write, a rename or a removal failed: a set in which only
/// a read failed, or a content was rejected, leaves nothing of that write, and so a
/// directory as it was if the write was the first. What keyd sees is in any case as it was.
pub proof fn a_failed_set_leaves_nothing(
    ops: Seq<WriteOpView>,
    stamp: nat,
    pid: nat,
    ans: Seq<AnswerView>,
    disks: Seq<Map<Seq<char>, Seq<u8>>>,
)
    requires
        apply_goes(txn::apply_start(ops, stamp, pid), ans, disks),
        applied_over(txn::apply_start(ops, stamp, pid), ans).stage is Failed,
        !(applied_over(txn::apply_start(ops, stamp, pid), ans).txn.undo is Failed),
    ensures
        ({
            let r = applied_over(txn::apply_start(ops, stamp, pid), ans);
            let (first, last) = (disks[0], disks.last());
            let baks = with_backups(first, ops, stamp, pid, r.next);
            let name = ops[r.next as int].name;
            &&& r.next <= ops.len()
            &&& r.txn.applied.len() == 0
            &&& adds_at_most(
                last,
                baks,
                txn::temp_name(name, pid),
                txn::backup_name(name, stamp, pid),
            )
            &&& only_looks_failed(txn::apply_start(ops, stamp, pid), ans) ==> last == baks
            &&& txn::visible(last) == txn::visible(first)
        }),
{
    let r = applied_over(txn::apply_start(ops, stamp, pid), ans);
    apply_begins(ops, stamp, pid, disks[0]);
    apply_leads_on(txn::apply_start(ops, stamp, pid), ans, disks, disks[0]);
    let baks = with_backups(disks[0], ops, stamp, pid, r.next);
    backups_are_not_seen(disks[0], ops, stamp, pid, r.next);
    scaffolding_is_apart(ops[r.next as int].name, stamp, pid);
    assert(txn::visible(disks.last()) =~= txn::visible(baks));
}

/// A write-set that went through and is reverted, the steps of the revert going well,
/// leaves the directory as it was but for the backups: every target with its bytes, or
/// absent where it was absent, and no other file changed.
pub proof fn reverting_a_set_restores(
    ops: Seq<WriteOpView>,
    stamp: nat,
    pid: nat,
    ans: Seq<AnswerView>,
    disks: Seq<Map<Seq<char>, Seq<u8>>>,
    back: Seq<AnswerView>,
    returning: Seq<Map<Seq<char>, Seq<u8>>>,
)
    requires
        apply_goes(txn::apply_start(ops, stamp, pid), ans, disks),
        ({
            let r = applied_over(txn::apply_start(ops, stamp, pid), ans);
            &&& r.stage is Done
            &&& undo_goes(txn::undo_next(r.txn), back, returning)
            &&& txn::undo_over(undone(txn::undo_next(r.txn), back))
        }),
        returning[0] == disks.last(),
        all_went_well(back),
    ensures
        ({
            let r = applied_over(txn::apply_start(ops, stamp, pid), ans);
            reverted(
                undone(txn::undo_next(r.txn), back),
                returning.last(),
                with_backups(disks[0], ops, stamp, pid, ops.len()),
            )
        }),
        txn::visible(returning.last()) == txn::visible(disks[0]),
{
    let first = disks[0];
    apply_begins(ops, stamp, pid, first);
    apply_leads_on(txn::apply_start(ops, stamp, pid), ans, disks, first);
    let t = applied_over(txn::apply_start(ops, stamp, pid), ans).txn;
    let all = installed(first, ops, stamp, pid, ops.len());
    let baks = with_backups(first, ops, stamp, pid, ops.len());
    leaving_undoes_unless_kept(t, back, returning, false);
    undoing_leaves_backups(first, ops, stamp, pid, ops.len(), all);
    backups_are_installed(first, ops, stamp, pid, ops.len());
    backups_are_not_seen(first, ops, stamp, pid, ops.len());
    let left = txn::undo_all(all, t.applied);
    assert forall|k: Seq<char>| left.contains_key(k) == baks.contains_key(k) by {
        assert(settled_at(left, all, baks, all, k));
    }
    assert forall|k: Seq<char>| #[trigger] left.contains_key(k) implies left[k] == baks[k] by {
        assert(settled_at(left, all, baks, all, k));
    }
    assert(left =~= baks);
}

// ---------------------------------------------------------------------------
// Deletes
// ---------------------------------------------------------------------------

/// A delete after the answers.
pub open spec fn deleted_over(r: DeleteRunView, ans: Seq<AnswerView>) -> DeleteRunView
    decreases ans.len(),
{
    if ans.len() == 0 {
        r
    } else {
        txn::delete_answer(deleted_over(r, ans.drop_last()), ans.last())
    }
}

/// The directory goes through `disks` while it answers the steps of a delete with `ans`.
pub open spec fn delete_goes(
    r: DeleteRunView,
    ans: Seq<AnswerView>,
    disks: Seq<Map<Seq<char>, Seq<u8>>>,
) -> bool
    decreases ans.len(),
{
    &&& disks.len() == ans.len() + 1
    &&& ans.len() > 0 ==> delete_goes(r, ans.drop_last(), disks.drop_last()) && txn::answers(
        disks[disks.len() - 2],
        txn::delete_step(deleted_over(r, ans.drop_last())),
        ans.last(),
        disks.last(),
    )
}

/// What is recorded of a delete.
pub open spec fn deletion_of(
    name: Seq<char>,
    bytes: Seq<u8>,
    stamp: nat,
    pid: nat,
) -> AppliedView {
    AppliedView {
        name,
        prior: PriorView::Existed(bytes),
        backup: Some(txn::backup_name(name, stamp, pid)),
    }
}

/// No step of a delete failed that could leave its backup behind: at most the file could
/// not be read, or not be removed.
pub open spec fn delete_left_tidy(r: DeleteRunView, ans: Seq<AnswerView>) -> bool
    decreases ans.len(),
{
    ans.len() > 0 ==> delete_left_tidy(r, ans.drop_last()) && (ans.last() is Failed ==> {
        let step = txn::delete_step(deleted_over(r, ans.drop_last()));
        step is Read || step == StepView::Unlink { name: r.name }
    })
}

/// Where a delete stands in the directory that it began in as `first`.
spec fn delete_stands(
    r: DeleteRunView,
    disk: Map<Seq<char>, Seq<u8>>,
    first: Map<Seq<char>, Seq<u8>>,
    tidy: bool,
) -> bool {
    let bak = txn::backup_name(r.name, r.stamp, r.txn.pid);
    let saved = first.contains_key(r.name) && !first.contains_key(bak);
    &&& r.txn.undo is Idle
    &&& match r.stage {
        DeleteStageView::ReadPrior => disk == first,
        DeleteStageView::WriteBackup(b) => disk == first && first.contains_key(r.name)
            && first[r.name] == b,
        DeleteStageView::Remove(b) => saved && first[r.name] == b && disk == first.insert(bak, b),
        DeleteStageView::DropBackup(_) => saved && disk == first.insert(bak, first[r.name]),
        DeleteStageView::Done => saved && r.txn.applied == seq![
            deletion_of(r.name, first[r.name], r.stamp, r.txn.pid),
        ] && disk == first.remove(r.name).insert(bak, first[r.name]),
        DeleteStageView::Failed(_) => adds_at_most(disk, first, bak, bak) && (tidy ==> disk
            == first),
    }
}

proof fn delete_leads_on(
    r: DeleteRunView,
    ans: Seq<AnswerView>,
    disks: Seq<Map<Seq<char>, Seq<u8>>>,
    first: Map<Seq<char>, Seq<u8>>,
)
    requires
        delete_goes(r, ans, disks),
        delete_stands(r, disks[0], first, true),
    ensures
        delete_stands(deleted_over(r, ans), disks.last(), first, delete_left_tidy(r, ans)),
        deleted_over(r, ans).name == r.name,
        deleted_over(r, ans).stamp == r.stamp,
        deleted_over(r, ans).txn.pid == r.txn.pid,
    decreases ans.len(),
{
    if ans.len() > 0 {
        let front = ans.drop_last();
        delete_leads_on(r, front, disks.drop_last(), first);
        let now = deleted_over(r, front);
        let disk = disks[disks.len() - 2];
        let after = disks.last();
        assert(disks.drop_last().last() == disk);
        scaffolding_is_apart(r.name, r.stamp, r.txn.pid);
        let bak = txn::backup_name(r.name, r.stamp, r.txn.pid);
        match now.stage {
            DeleteStageView::Remove(b) => {
                if !(ans.last() is Failed) {
                    assert(after =~= first.remove(r.name).insert(bak, b));
                }
            },
            DeleteStageView::DropBackup(_) => {
                if !(ans.last() is Failed) {
                    assert(after =~= first);
                }
            },
            _ => {},
        }
    }
}

/// A delete goes one of two ways. It ends with the file removed and its bytes in the
/// backup, nothing else having changed; or it fails and leaves the directory as it was but
/// for at most the backup, which stays only where writing or removing it failed.
pub proof fn a_delete_removes_or_fails(
    name: Seq<char>,
    stamp: nat,
    pid: nat,
    ans: Seq<AnswerView>,
    disks: Seq<Map<Seq<char>, Seq<u8>>>,
)
    requires
        delete_goes(txn::delete_start(name, stamp, pid), ans, disks),
    ensures
        ({
            let r = deleted_over(txn::delete_start(name, stamp, pid), ans);
            let (first, last) = (disks[0], disks.last());
            let bak = txn::backup_name(name, stamp, pid);
            &&& r.stage is Done ==> first.contains_key(name) && !first.contains_key(bak)
                && r.txn.applied == seq![deletion_of(name, first[name], stamp, pid)] && last
                == first.remove(name).insert(bak, first[name])
            &&& r.stage is Failed ==> adds_at_most(last, first, bak, bak) && txn::visible(last)
                == txn::visible(first)
            &&& r.stage is Failed && delete_left_tidy(
                txn::delete_start(name, stamp, pid),
                ans,
            ) ==> last == first
        }),
{
    delete_leads_on(txn::delete_start(name, stamp, pid), ans, disks, disks[0]);
    if deleted_over(txn::delete_start(name, stamp, pid), ans).stage is Failed {
        scaffolding_is_apart(name, stamp, pid);
        assert(txn::visible(disks.last()) =~= txn::visible(disks[0]));
    }
}

/// A delete that went through and is reverted, the steps of the revert going well, leaves
/// the directory as it was but for the backup: the file is back with its bytes.
pub proof fn reverting_a_delete_restores(
    name: Seq<char>,
    stamp: nat,
    pid: nat,
    ans: Seq<AnswerView>,
    disks: Seq<Map<Seq<char>, Seq<u8>>>,
    back: Seq<AnswerView>,
    returning: Seq<Map<Seq<char>, Seq<u8>>>,
)
    requires
        delete_goes(txn::delete_start(name, stamp, pid), ans, disks),
        ({
            let r = deleted_over(txn::delete_start(name, stamp, pid), ans);
            &&& r.stage is Done
            &&& undo_goes(txn::undo_next(r.txn), back, returning)
            &&& txn::undo_over(undone(txn::undo_next(r.txn), back))
        }),
        returning[0] == disks.last(),
        all_went_well(back),
    ensures
        ({
            let r = deleted_over(txn::delete_start(name, stamp, pid), ans);
            reverted(
                undone(txn::undo_next(r.txn), back),
                returning.last(),
                disks[0].insert(txn::backup_name(name, stamp, pid), disks[0][name]),
            )
        }),
        txn::visible(returning.last()) == txn::visible(disks[0]),
{
    let (first, last) = (disks[0], disks.last());
    delete_leads_on(txn::delete_start(name, stamp, pid), ans, disks, first);
    let t = deleted_over(txn::delete_start(name, stamp, pid), ans).txn;
    scaffolding_is_apart(name, stamp, pid);
    let a = deletion_of(name, first[name], stamp, pid);
    let goal = first.insert(txn::backup_name(name, stamp, pid), first[name]);
    assert(t.applied.last() == a);
    assert(t.applied.drop_last() =~= Seq::<AppliedView>::empty());
    assert(txn::undo_one(last, a) =~= goal);
    assert(txn::undo_all(last, t.applied) == goal) by {
        assert(txn::undo_all(goal, t.applied.drop_last()) == goal);
    }
    leaving_undoes_unless_kept(t, back, returning, false);
    assert(txn::visible(goal) =~= txn::visible(first));
}

} // verus!
