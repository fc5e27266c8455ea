//! The privileged side: names, the safety scan, the transaction, the dead-man's switch and
//! the tool's conversation.

use std::collections::BTreeMap;

use keydviz::backups::prune_backups;
use keydviz::deadman::{await_keep, Verdict, Wait, Waiting};
use keydviz::fault::{Fault, FaultKind};
use keydviz::fdio::{
    cut_short, poll_timeout, write_line, FdReader, LineIn, LineStep, ReadEvent, ReadStep,
    WriteEvent,
};
use keydviz::names::{valid_name, MAX_CONFIG_BYTES};
use keydviz::scan::{include_finding, scan, Finding};
use keydviz::tool::{
    keyd_bin, keyd_check, keyd_locations, keyd_reload, known_good, parse_opts, parse_request,
    rejection, reload_fault, sensitive, Event, Opts, ToolRun, Want, DEFAULT_TIMEOUT_SECS,
};
use keydviz::txn::{apply, delete, Answer, ApplyRun, DeleteRun, DeleteStage, Prior, Stage, Step};
use keydviz::txn::{Txn, Undo, WriteOp};

fn texts(v: &[&str]) -> Vec<String> {
    v.iter().map(|s| s.to_string()).collect()
}

// ---------------------------------------------------------------------------
// Names
// ---------------------------------------------------------------------------

#[test]
fn name_allow_list() {
    for good in ["default", "hhkb", "my-board_2"] {
        assert!(valid_name(good), "{good:?} should be valid");
    }
    for bad in [
        "",
        ".",
        "..",
        "../cron.d/x",
        "a/b",
        "a.conf",
        ".hidden",
        "a b",
        "ümlaut",
        "x\0",
        &"a".repeat(65),
    ] {
        assert!(!valid_name(bad), "{bad:?} should be rejected");
    }
}

#[test]
fn the_longest_name_is_still_valid() {
    assert!(valid_name(&"a".repeat(64)));
    assert_eq!(MAX_CONFIG_BYTES, 65536);
}

// ---------------------------------------------------------------------------
// The scan
// ---------------------------------------------------------------------------

fn kinds(src: &str) -> Vec<String> {
    scan(src.as_bytes()).iter().map(Finding::describe).collect()
}

#[test]
fn clean_config_has_no_findings() {
    assert!(scan(b"[ids]\n*\n[main]\ncapslock = esc\na = overload(nav, a)\n").is_empty());
}

#[test]
fn command_and_macro_flagged_anywhere_in_a_line() {
    assert_eq!(kinds("[main]\na = command(rm -rf /)\n"), ["command line 2"]);
    // Nested descriptors execute too.
    assert_eq!(kinds("[main]\na = overload(nav, command(x))\n"), ["command line 2"]);
    assert_eq!(kinds("[main]\na = macro(C-a hello)\n"), ["macro line 2"]);
    assert_eq!(kinds("[main]\na = macro2(50, 50, ab)\n"), ["macro line 2"]);
}

#[test]
fn comments_do_not_flag() {
    assert!(scan(b"# try a = command(date) for fun\n  # macro(x)\n").is_empty());
}

#[test]
fn include_detection_matches_keyd_exactly() {
    assert_eq!(kinds("include common\n"), ["include line 1 common"]);
    assert!(scan(b"  include common\n").is_empty());
    assert!(scan(b"includecommon\n").is_empty());
}

#[test]
fn suspect_includes_flagged() {
    assert_eq!(kinds("include /etc/passwd\n"), ["suspect-include line 1 /etc/passwd"]);
    assert_eq!(kinds("include ../outside\n"), ["suspect-include line 1 ../outside"]);
}

#[test]
fn needs_ack_split() {
    let f = scan(b"include common\na = command(x)\nb = macro(y)\n");
    let acks: Vec<bool> = f.iter().map(Finding::needs_ack).collect();
    assert_eq!(acks, [false, true, true]);
}

#[test]
fn non_utf8_still_scans() {
    let mut bytes = b"[main]\na = command(".to_vec();
    bytes.push(0xff);
    bytes.extend_from_slice(b")\n");
    assert!(matches!(scan(&bytes)[0], Finding::Command { line: 2 }));
}

#[test]
fn a_line_can_hold_both_constructs() {
    assert_eq!(kinds("a = overload(macro(x), command(y))"), ["command line 1", "macro line 1"]);
}

#[test]
fn an_undecodable_argument_is_replaced() {
    // The bytes are decoded, not handed on as they are.
    let f = scan(b"include a\xffb\n");
    assert_eq!(f, vec![Finding::Include { line: 1, arg: "a\u{fffd}b".into() }]);
    assert_eq!(
        include_finding("x/../y".into(), 3),
        Finding::SuspectInclude { line: 3, arg: "x/../y".into() }
    );
    assert_eq!(include_finding("x..y".into(), 3), Finding::Include { line: 3, arg: "x..y".into() });
}

// ---------------------------------------------------------------------------
// The transaction, over a directory in memory
// ---------------------------------------------------------------------------

const PID: u32 = 100;

struct Mem {
    files: BTreeMap<String, Vec<u8>>,
}

impl Mem {
    fn with(files: &[(&str, &str)]) -> Mem {
        Mem {
            files: files.iter().map(|(n, c)| (n.to_string(), c.as_bytes().to_vec())).collect(),
        }
    }

    fn get(&self, name: &str) -> Option<&str> {
        self.files.get(name).map(|b| std::str::from_utf8(b).unwrap())
    }

    fn debris(&self) -> Vec<&String> {
        self.files.keys().filter(|n| n.contains("keydviz")).collect()
    }

    fn perform(
        &mut self,
        step: Step,
        check: &mut dyn FnMut(&[u8]) -> Result<(), Fault>,
    ) -> Answer {
        match step {
            Step::Read { name } => match self.files.get(&name) {
                Some(b) => Answer::Bytes(b.clone()),
                None => Answer::Missing,
            },
            Step::WriteNew { name, bytes } => {
                if self.files.contains_key(&name) {
                    return Answer::Failed(Fault::new(FaultKind::Other, "exists"));
                }
                self.files.insert(name, bytes);
                Answer::Done
            }
            Step::Check { name } => match check(&self.files[&name]) {
                Ok(()) => Answer::Done,
                Err(f) => Answer::Failed(f),
            },
            Step::Rename { from, to } => {
                let b = self.files.remove(&from).unwrap();
                self.files.insert(to, b);
                Answer::Done
            }
            Step::Unlink { name } => match self.files.remove(&name) {
                Some(_) => Answer::Done,
                None => Answer::Failed(Fault::new(FaultKind::NotFound, "gone")),
            },
            Step::Finished => unreachable!(),
        }
    }

    fn apply(
        &mut self,
        ops: Vec<WriteOp>,
        stamp: u64,
        check: &mut dyn FnMut(&[u8]) -> Result<(), Fault>,
    ) -> ApplyRun {
        let mut run = apply(ops, stamp, PID);
        loop {
            match run.step() {
                Step::Finished => return run,
                step => {
                    let ans = self.perform(step, check);
                    run = run.answer(ans);
                }
            }
        }
    }

    fn delete(&mut self, name: &str, stamp: u64) -> DeleteRun {
        let mut run = delete(name, stamp, PID);
        loop {
            match run.step() {
                Step::Finished => return run,
                step => {
                    let ans = self.perform(step, &mut |_| Ok(()));
                    run = run.answer(ans);
                }
            }
        }
    }

    fn revert(&mut self, txn: Txn) -> Txn {
        let mut txn = txn.revert();
        while !txn.over() {
            let step = txn.step();
            let ans = self.perform(step, &mut |_| Ok(()));
            txn = txn.answer(ans);
        }
        txn
    }
}

fn op(name: &str, content: &str) -> WriteOp {
    WriteOp { name: name.into(), content: content.as_bytes().to_vec() }
}

fn installed(run: ApplyRun) -> Txn {
    assert!(matches!(run.stage, Stage::Done), "the set should be installed");
    run.txn
}

#[test]
fn apply_then_keep_installs_content_and_backup() {
    let mut d = Mem::with(&[("a.conf", "old")]);
    let txn = installed(d.apply(vec![op("a.conf", "new")], 42, &mut |_| Ok(())));
    assert_eq!(d.get("a.conf"), Some("new"));
    let bak = format!(".a.conf.keydviz-bak.42.{PID}");
    assert_eq!(txn.applied[0].backup.as_deref(), Some(bak.as_str()));
    assert_eq!(d.get(&bak), Some("old"));
    let kept = txn.keep();
    // A kept transaction has nothing left to revert.
    let kept = d.revert(kept);
    assert!(matches!(kept.undo, Undo::Done));
    assert_eq!(d.get("a.conf"), Some("new"));
}

#[test]
fn revert_restores_prior_bytes() {
    let mut d = Mem::with(&[("a.conf", "old")]);
    let txn = installed(d.apply(vec![op("a.conf", "new")], 1, &mut |_| Ok(())));
    let txn = d.revert(txn);
    assert!(matches!(txn.undo, Undo::Done));
    assert_eq!(d.get("a.conf"), Some("old"));
}

#[test]
fn revert_deletes_created_file() {
    let mut d = Mem::with(&[]);
    let txn = installed(d.apply(vec![op("fresh.conf", "x")], 1, &mut |_| Ok(())));
    assert!(d.get("fresh.conf").is_some());
    assert_eq!(txn.applied[0].prior, Prior::Absent);
    d.revert(txn);
    assert!(d.get("fresh.conf").is_none());
}

#[test]
fn failed_check_leaves_target_untouched() {
    let mut d = Mem::with(&[("a.conf", "old")]);
    let run = d.apply(vec![op("a.conf", "bad")], 1, &mut |_| {
        Err(Fault::new(FaultKind::Other, "keyd check failed"))
    });
    match run.stage {
        Stage::Failed(f) => assert_eq!(f.text, "keyd check failed"),
        other => panic!("expected a failure, got {other:?}"),
    }
    assert_eq!(d.get("a.conf"), Some("old"));
    assert!(d.debris().is_empty(), "debris: {:?}", d.debris());
}

#[test]
fn check_sees_the_exact_bytes() {
    let mut d = Mem::with(&[]);
    let mut seen = Vec::new();
    d.apply(vec![op("a.conf", "payload")], 1, &mut |b| {
        seen.push(b.to_vec());
        Ok(())
    });
    assert_eq!(seen, vec![b"payload".to_vec()]);
}

#[test]
fn a_set_of_new_and_old_files_is_installed_whole() {
    let mut d = Mem::with(&[("a.conf", "old")]);
    let run = d.apply(vec![op("a.conf", "one"), op("b.conf", "two")], 3, &mut |_| Ok(()));
    let txn = installed(run);
    assert_eq!((d.get("a.conf"), d.get("b.conf")), (Some("one"), Some("two")));
    // Only what was there has a backup.
    assert_eq!(d.get(&bak("a.conf", 3, PID)), Some("old"));
    assert_eq!(d.debris().len(), 1);
    let txn = d.revert(txn);
    assert!(matches!(txn.undo, Undo::Done) && txn.applied.is_empty());
    assert_eq!((d.get("a.conf"), d.get("b.conf")), (Some("old"), None));
    // A second revert changes nothing.
    let before = d.files.clone();
    d.revert(txn);
    assert_eq!(d.files, before);
}

#[test]
fn delete_then_keep_removes_file_and_keeps_backup() {
    let mut d = Mem::with(&[("a.conf", "live")]);
    let run = d.delete("a.conf", 7);
    assert!(matches!(run.stage, DeleteStage::Done));
    assert!(d.get("a.conf").is_none(), "file should be gone");
    let bak = format!(".a.conf.keydviz-bak.7.{PID}");
    assert_eq!(d.get(&bak), Some("live"));
    let kept = run.txn.keep();
    d.revert(kept);
    assert!(d.get("a.conf").is_none());
}

#[test]
fn delete_then_revert_restores_the_file() {
    let mut d = Mem::with(&[("a.conf", "live")]);
    let run = d.delete("a.conf", 1);
    assert!(d.get("a.conf").is_none());
    let txn = d.revert(run.txn);
    assert!(matches!(txn.undo, Undo::Done));
    assert_eq!(d.get("a.conf"), Some("live"));
}

#[test]
fn deleting_an_absent_config_errors_cleanly() {
    let mut d = Mem::with(&[]);
    let run = d.delete("ghost.conf", 1);
    match run.stage {
        DeleteStage::Failed(f) => assert_eq!(f.kind, FaultKind::NotFound),
        other => panic!("expected a failure, got {other:?}"),
    }
    assert!(d.debris().is_empty());
}

#[test]
fn multi_op_set_reverts_all_or_nothing() {
    let mut d = Mem::with(&[("a.conf", "a-old")]);
    let mut calls = 0;
    let run = d.apply(vec![op("a.conf", "a-new"), op("b.conf", "b-new")], 1, &mut |_| {
        calls += 1;
        if calls == 2 {
            Err(Fault::new(FaultKind::Other, "second op rejected"))
        } else {
            Ok(())
        }
    });
    match run.stage {
        Stage::Failed(f) => assert_eq!(f.text, "second op rejected"),
        other => panic!("expected a failure, got {other:?}"),
    }
    assert_eq!(d.get("a.conf"), Some("a-old"));
    assert!(d.get("b.conf").is_none());
}

#[test]
fn an_unreadable_prior_stops_before_any_write() {
    let run = apply(vec![op("a.conf", "new")], 1, PID);
    assert_eq!(run.step(), Step::Read { name: "a.conf".into() });
    let run = run.answer(Answer::Failed(Fault::new(FaultKind::Other, "ELOOP")));
    assert_eq!(run.step(), Step::Finished);
    assert!(matches!(run.stage, Stage::Failed(_)));
}

fn bak(name: &str, stamp: u64, pid: u32) -> String {
    format!(".{name}.keydviz-bak.{stamp}.{pid}")
}

#[test]
fn prune_keeps_newest_n_and_deletes_older() {
    let mut entries = texts(&["a.conf"]);
    for s in [10u64, 20, 30, 40, 50] {
        entries.push(bak("a.conf", s, 100));
    }
    let gone = prune_backups(&entries, "a.conf", 2);
    // Newest two (50, 40) survive; older three go.
    assert!(!gone.contains(&bak("a.conf", 50, 100)));
    assert!(!gone.contains(&bak("a.conf", 40, 100)));
    for s in [10, 20, 30] {
        assert!(gone.contains(&bak("a.conf", s, 100)), "stamp {s} should be pruned");
    }
    // The live config is never touched.
    assert!(!gone.contains(&"a.conf".to_string()));
    assert_eq!(gone.len(), 3);
}

#[test]
fn prune_is_a_noop_below_the_limit() {
    let entries = vec![bak("a.conf", 10, 1), bak("a.conf", 20, 1)];
    assert!(prune_backups(&entries, "a.conf", 5).is_empty());
}

#[test]
fn prune_never_touches_other_configs_or_unrelated_files() {
    let entries = vec![
        bak("b.conf", 10, 1),
        bak("b.conf", 20, 1),
        ".a.conf.keydviz-bak.notanumber.1".to_string(),
        ".a.conf.keydviz-bak.30.notapid".to_string(),
        ".a.conf.keydviz-bak.40.1.extra".to_string(),
        "a.conf".to_string(),
        bak("a.conf", 100, 1),
        bak("a.conf", 200, 1),
    ];
    let mut gone = prune_backups(&entries, "a.conf", 0);
    gone.sort();
    assert_eq!(gone, vec![bak("a.conf", 100, 1), bak("a.conf", 200, 1)]);
}

// ---------------------------------------------------------------------------
// The dead-man's switch
// ---------------------------------------------------------------------------

fn wait_for(events: Vec<Wait>) -> Verdict {
    let mut heard: Vec<u8> = Vec::new();
    for ev in events {
        match await_keep(heard, ev) {
            Waiting::More(h) => heard = h,
            Waiting::Over(v) => return v,
        }
    }
    panic!("the wait should be over");
}

fn got(bytes: &[u8]) -> Wait {
    Wait::Received(bytes.to_vec())
}

#[test]
fn keep_line_keeps() {
    assert_eq!(wait_for(vec![got(b"keep\n")]), Verdict::Keep);
}

#[test]
fn crlf_keep_keeps() {
    assert_eq!(wait_for(vec![got(b"keep\r\n")]), Verdict::Keep);
}

#[test]
fn timeout_reverts() {
    assert_eq!(wait_for(vec![Wait::Expired]), Verdict::TimedOut);
}

#[test]
fn eof_reverts() {
    assert_eq!(wait_for(vec![got(b"")]), Verdict::Eof);
}

#[test]
fn wrong_line_reverts() {
    assert_eq!(wait_for(vec![got(b"yes please\n")]), Verdict::Refused);
}

#[test]
fn split_arrival_still_keeps() {
    assert_eq!(wait_for(vec![got(b"ke"), Wait::Interrupted, got(b"ep\n")]), Verdict::Keep);
}

#[test]
fn a_half_line_never_keeps() {
    assert_eq!(wait_for(vec![got(b"keep"), Wait::Expired]), Verdict::TimedOut);
    assert_eq!(wait_for(vec![got(b"keep"), got(b"")]), Verdict::Eof);
}

// ---------------------------------------------------------------------------
// Reading and writing lines
// ---------------------------------------------------------------------------

const MS: u128 = 1_000_000;

#[test]
fn read_times_out_on_silent_pipe() {
    let rd = FdReader::new(0, 50 * MS);
    assert_eq!(rd.left(10 * MS), 40 * MS);
    assert_eq!(rd.left(60 * MS), 0);
    match rd.read(ReadEvent::Expired) {
        ReadStep::Fail(f) => assert_eq!(f.kind, FaultKind::TimedOut),
        other => panic!("expected a time-out, got {other:?}"),
    }
}

#[test]
fn read_delivers_data_within_deadline() {
    let rd = FdReader::new(0, 5_000 * MS);
    assert_eq!(rd.read(ReadEvent::Read(4)), ReadStep::Deliver(4));
}

#[test]
fn partial_payload_then_stall_times_out() {
    // The deadline is for the whole request, not for each read.
    let rd = FdReader::new(0, 50 * MS);
    assert_eq!(rd.read(ReadEvent::Read(2)), ReadStep::Deliver(2));
    assert_eq!(rd.left(50 * MS), 0);
    match rd.read(ReadEvent::Expired) {
        ReadStep::Fail(f) => assert_eq!(f.kind, FaultKind::TimedOut),
        other => panic!("expected a time-out, got {other:?}"),
    }
}

#[test]
fn an_interrupted_read_is_tried_again() {
    let rd = FdReader::new(0, 50 * MS);
    let f = Fault::new(FaultKind::Interrupted, "EINTR");
    assert_eq!(rd.read(ReadEvent::Failed(f)), ReadStep::Again);
    let f = Fault::new(FaultKind::Other, "EIO");
    assert!(matches!(rd.read(ReadEvent::Failed(f)), ReadStep::Fail(_)));
}

#[test]
fn a_poll_never_waits_longer_than_it_can_say() {
    assert_eq!(poll_timeout(0), 0);
    assert_eq!(poll_timeout(20_000 * MS), 20_000);
    assert_eq!(poll_timeout(u128::MAX), i32::MAX);
}

#[test]
fn write_line_survives_closed_pipe() {
    for line in ["applied 20", "reverted Eof"] {
        let out = write_line(line);
        let (_, more) = out.wrote(WriteEvent::Gone);
        assert!(!more);
    }
}

#[test]
fn write_line_delivers_when_pipe_is_open() {
    let mut out = write_line("kept");
    let mut got: Vec<u8> = Vec::new();
    loop {
        let next = out.pending();
        if next.is_empty() {
            break;
        }
        // A pipe that takes two bytes at a time, and is interrupted in between.
        let n = next.len().min(2);
        got.extend_from_slice(&next[..n]);
        let (o, more) = out.wrote(WriteEvent::Wrote(n));
        if !more {
            break;
        }
        let (o, more) = o.wrote(WriteEvent::Interrupted);
        assert!(more);
        out = o;
    }
    assert_eq!(got, b"kept\n");
}

#[test]
fn a_request_line_is_read_byte_by_byte() {
    let mut line = LineIn::new();
    for b in b"apply hhkb 3" {
        line = match line.push(*b) {
            LineStep::More(l) => l,
            other => panic!("the line goes on, got {other:?}"),
        };
    }
    match line.push(b'\n') {
        LineStep::Line(l) => assert_eq!(l, "apply hhkb 3"),
        other => panic!("the line should be complete, got {other:?}"),
    }
}

// ---------------------------------------------------------------------------
// The tool
// ---------------------------------------------------------------------------

#[test]
fn a_line_that_is_cut_short_is_no_request() {
    let mut line = LineIn::new();
    for b in b"apply x" {
        line = match line.push(*b) {
            LineStep::More(l) => l,
            other => panic!("{other:?}"),
        };
    }
    match line.end() {
        LineStep::CutShort(f) => assert_eq!(f, cut_short()),
        other => panic!("{other:?}"),
    }
    assert_eq!(cut_short().kind, FaultKind::UnexpectedEof);
}

#[test]
fn a_request_is_taken_apart() {
    let r = parse_request("apply hhkb 120 sensitive-ok\n");
    assert_eq!((r.cmd.as_str(), r.name.as_str(), r.len, r.sensitive_ok), ("apply", "hhkb", 120, true));
    let r = parse_request("apply hhkb 120");
    assert!(!r.sensitive_ok);
}

#[test]
fn options_need_a_debug_build() {
    let args = texts(&["--dev-dir", "/tmp/x", "--dev-no-reload", "--timeout", "30"]);
    assert_eq!(parse_opts(&args, false), Err("unknown flag --dev-dir".to_string()));
    let o = parse_opts(&args, true).unwrap();
    assert_eq!(o, Opts { dir: "/tmp/x".into(), reload: false, timeout: 30 });
    // The window is kept long enough to reach the keyboard, and short enough.
    assert_eq!(parse_opts(&texts(&["--timeout", "1"]), false).unwrap().timeout, 5);
    assert_eq!(parse_opts(&texts(&["--timeout", "999"]), false).unwrap().timeout, 120);
    assert!(parse_opts(&texts(&["--timeout", "x"]), false).is_err());
    assert!(parse_opts(&texts(&["--timeout"]), false).is_err());
    let o = parse_opts(&Vec::new(), false).unwrap();
    assert_eq!(o, Opts { dir: "/etc/keyd".into(), reload: true, timeout: DEFAULT_TIMEOUT_SECS });
}

fn run_tool(body: &str, header: &str, verdict: Verdict) -> (Vec<String>, Vec<Want>) {
    let opts = Opts { dir: "/etc/keyd".into(), reload: true, timeout: 20 };
    let mut run = ToolRun::start(opts, 5);
    let mut said: Vec<String> = Vec::new();
    let mut wants: Vec<Want> = Vec::new();
    loop {
        let want = run.want();
        let ev = match &want {
            Want::Line => Event::Line(header.to_string()),
            Want::Payload(_) => Event::Payload(body.as_bytes().to_vec()),
            Want::Locate => Event::Found(true),
            Want::Probe => Event::Found(true),
            Want::Watch(_) => Event::Verdict(verdict),
            Want::Exit(_) => {
                wants.push(want);
                return (said, wants);
            }
            _ => Event::Done,
        };
        wants.push(want);
        let (next, lines) = run.answer(ev);
        run = next;
        said.extend(lines);
    }
}

#[test]
fn a_kept_config_is_announced_and_kept() {
    let (said, wants) = run_tool("[ids]\n*\n", "apply hhkb 8", Verdict::Keep);
    assert_eq!(said, texts(&["applied 20", "kept"]));
    assert_eq!(wants.last(), Some(&Want::Exit(0)));
    assert!(wants.contains(&Want::Write {
        file: "hhkb.conf".into(),
        content: b"[ids]\n*\n".to_vec()
    }));
    assert!(wants.contains(&Want::Commit));
    assert!(!wants.contains(&Want::Revert));
}

#[test]
fn a_kept_delete_is_announced_and_kept() {
    let (said, wants) = run_tool("", "delete hhkb", Verdict::Keep);
    assert_eq!(said, texts(&["applied 20", "kept"]));
    let expected = vec![
        Want::Line,
        Want::Locate,
        Want::Probe,
        Want::Open,
        Want::Delete { file: "hhkb.conf".into() },
        Want::Reload,
        Want::Watch(20),
        Want::Commit,
        Want::Exit(0),
    ];
    assert_eq!(wants, expected);
    // Anything but KEEP brings the file back.
    let (said, wants) = run_tool("", "delete hhkb", Verdict::TimedOut);
    assert_eq!(said, texts(&["applied 20", "reverted TimedOut"]));
    assert!(wants.contains(&Want::Revert) && wants.contains(&Want::ReloadRestored));
    assert_eq!(wants.last(), Some(&Want::Exit(3)));
}

#[test]
fn a_delete_leaves_the_backup_or_brings_the_file_back() {
    for (verdict, line, code) in
        [(Verdict::Keep, "kept", 0), (Verdict::Eof, "reverted Eof", 3)]
    {
        let mut d = Mem::with(&[("hhkb.conf", "live")]);
        let opts = Opts { dir: "/etc/keyd".into(), reload: true, timeout: 20 };
        let mut run = ToolRun::start(opts, 5);
        let mut txn: Option<Txn> = None;
        let mut said: Vec<String> = Vec::new();
        let end = loop {
            let ev = match run.want() {
                Want::Line => Event::Line("delete hhkb".into()),
                Want::Locate | Want::Probe => Event::Found(true),
                Want::Delete { file } => {
                    txn = Some(d.delete(&file, 7).txn);
                    Event::Done
                }
                Want::Watch(_) => Event::Verdict(verdict),
                Want::Commit => {
                    txn = txn.map(Txn::keep);
                    Event::Done
                }
                Want::Revert => {
                    txn = txn.map(|t| d.revert(t));
                    Event::Done
                }
                Want::Exit(n) => break n,
                _ => Event::Done,
            };
            let (next, lines) = run.answer(ev);
            run = next;
            said.extend(lines);
        };
        assert_eq!(said, texts(&["applied 20", line]));
        assert_eq!(end, code);
        let live = if verdict == Verdict::Keep { None } else { Some("live") };
        assert_eq!(d.get("hhkb.conf"), live);
        assert_eq!(d.get(&bak("hhkb.conf", 7, PID)), Some("live"));
        assert_eq!(d.debris().len(), 1);
    }
}

#[test]
fn deleting_what_is_not_there_is_refused() {
    let opts = Opts { dir: "/etc/keyd".into(), reload: true, timeout: 20 };
    let mut run = ToolRun::start(opts, 5);
    for ev in [Event::Line("delete ghost".into()), Event::Found(true), Event::Found(true), Event::Done] {
        run = run.answer(ev).0;
    }
    let f = Fault::new(FaultKind::NotFound, "config does not exist");
    let (run, said) = run.answer(Event::Failed(f));
    assert_eq!(said, texts(&["error config does not exist"]));
    assert_eq!(run.want(), Want::Exit(2));
}

#[test]
fn old_backups_are_pruned_once_an_apply_is_kept() {
    let (_, wants) = run_tool("[ids]\n*\n", "apply hhkb 8", Verdict::Keep);
    let at = wants.iter().position(|w| *w == Want::Commit).unwrap();
    assert_eq!(wants[at + 1], Want::Prune { file: "hhkb.conf".into(), keep: 5 });
    let (_, wants) = run_tool("[ids]\n*\n", "apply hhkb 8", Verdict::Eof);
    assert!(!wants.iter().any(|w| matches!(w, Want::Prune { .. })));
    // A failed prune leaves the config kept.
    let opts = Opts { dir: "/etc/keyd".into(), reload: false, timeout: 20 };
    let mut run = ToolRun::start(opts, 5);
    for ev in [
        Event::Line("apply hhkb 1".into()),
        Event::Payload(b"#".to_vec()),
        Event::Found(true),
        Event::Found(true),
        Event::Done,
        Event::Done,
        Event::Verdict(Verdict::Keep),
        Event::Done,
    ] {
        run = run.answer(ev).0;
    }
    assert!(matches!(run.want(), Want::Prune { .. }));
    let (run, said) = run.answer(Event::Failed(Fault::new(FaultKind::Other, "EROFS")));
    assert_eq!(said, texts(&["kept"]));
    assert_eq!(run.want(), Want::Exit(0));
}

#[test]
fn an_unconfirmed_config_is_reverted() {
    for v in [Verdict::TimedOut, Verdict::Eof, Verdict::Refused] {
        let (said, wants) = run_tool("[ids]\n*\n", "apply hhkb 8", v);
        assert_eq!(said[0], "applied 20");
        assert!(said.last().unwrap().starts_with("reverted "), "{said:?}");
        assert!(wants.contains(&Want::Revert));
        assert!(!wants.contains(&Want::Commit));
    }
}

#[test]
fn a_bad_request_is_refused_before_any_write() {
    for (header, body) in [
        ("apply ../x 8", "[ids]\n*\n"),
        ("remove hhkb 8", "[ids]\n*\n"),
        ("delete ../x", ""),
        ("delete", ""),
        ("apply hhkb 70000", "x"),
        ("apply hhkb 18", "a = command(date)\n"),
    ] {
        let (said, wants) = run_tool(body, header, Verdict::Keep);
        assert!(said.last().unwrap().starts_with("error "), "{header}: {said:?}");
        assert!(!wants.iter().any(|w| matches!(w, Want::Write { .. })), "{header}");
        assert!(!wants.iter().any(|w| matches!(w, Want::Delete { .. })), "{header}");
        assert!(matches!(wants.last(), Some(Want::Exit(n)) if *n != 0));
    }
}

#[test]
fn sensitive_constructs_pass_once_acknowledged() {
    let body = "a = command(date)\n";
    let (said, wants) = run_tool(body, "apply hhkb 18 sensitive-ok", Verdict::Keep);
    assert_eq!(said.last().map(String::as_str), Some("kept"));
    assert!(said[0].starts_with("finding command line 1"), "{said:?}");
    assert!(wants.contains(&Want::Commit));
    assert!(sensitive(&body.as_bytes().to_vec()));
    assert!(!sensitive(&b"include x\n".to_vec()));
}

#[test]
fn keyd_is_found_where_it_is_installed() {
    let places = keyd_locations();
    assert!(!places.is_empty());
    let mut present = vec![false; places.len()];
    assert_eq!(keyd_bin(&present), None);
    let last = places.len() - 1;
    present[last] = true;
    assert_eq!(keyd_bin(&present), Some(places[last].clone()));
    assert!(known_good().contains("[ids]"));
}

#[test]
fn a_rejection_is_one_line() {
    assert!(keyd_check(true, b"noise", b"noise").is_none());
    let f = keyd_check(false, b" \n", b"line 1\nline 2\n").unwrap();
    assert_eq!(f.text, "keyd check rejected the config: line 1 | line 2");
    let f = keyd_check(false, b"bad\n", b"other\n").unwrap();
    assert_eq!(f.text, "keyd check rejected the config: bad");
    assert_eq!(rejection("", "x").text, "keyd check rejected the config: x");
    assert!(keyd_reload(true, b"").is_none());
    assert_eq!(keyd_reload(false, b" no daemon\xff\n").unwrap().text, "no daemon\u{fffd}");
    assert_eq!(reload_fault(" x ").text, "x");
}
