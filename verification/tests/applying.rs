//! One-click apply from the user interface's side.

use keydviz::apply_ctx::{
    apply_busy, apply_gate, backup_detail, backup_rows, backups_of, cancel_apply, confirm_apply,
    delete_config,
    dialog_opened, handle_apply_event, human_size, launch_apply, launch_delete, pick_backup,
    refuse_if_applying,    remove_config_after_delete, reset_apply_ui, restore_backup, start_apply, started,
    teardown_apply, After, ApplyState, ApplyUi, Backup, BackupRead, DeletePlan, Pending, Preflight, Review,
    SessionBytes,
};
use keydviz::applying::{
    command_line, finish_run, include_candidates, map_exit, one_click, parse_event, pump,
    request_bytes, request_header, scan_includes, ApplyEvent, ApplyHandle, ApplyOp, ApplyRequest,
    FileSeen, IncludedFinding, Invocation, ProcessEnd, Surroundings,
};
use keydviz::scan::{scan, Finding};

#[test]
fn parses_every_protocol_line() {
    assert_eq!(
        parse_event("finding line 3: command() runs as root"),
        Some(ApplyEvent::Finding("line 3: command() runs as root".into()))
    );
    assert_eq!(
        parse_event("error invalid config name"),
        Some(ApplyEvent::Refused("invalid config name".into()))
    );
    assert_eq!(parse_event("applied 30"), Some(ApplyEvent::Applied { secs: 30 }));
    assert_eq!(parse_event("kept"), Some(ApplyEvent::Kept));
    assert_eq!(parse_event("reverted TimedOut"), Some(ApplyEvent::Reverted("TimedOut".into())));
    assert_eq!(
        parse_event("revert-failed rename: EACCES"),
        Some(ApplyEvent::RevertFailed("rename: EACCES".into()))
    );
    // Junk and malformed lines are skipped, never misread as a verdict.
    for junk in ["", "applied", "applied soon", "keptx", "ERROR x", "pkexec noise"] {
        assert_eq!(parse_event(junk), None, "{junk:?} must not parse");
    }
}

#[test]
fn terminality_matches_the_protocol() {
    assert!(!ApplyEvent::Finding(String::new()).is_terminal());
    assert!(!ApplyEvent::Applied { secs: 1 }.is_terminal());
    for t in [
        ApplyEvent::Refused(String::new()),
        ApplyEvent::Kept,
        ApplyEvent::Reverted(String::new()),
        ApplyEvent::RevertFailed(String::new()),
        ApplyEvent::AuthDismissed,
        ApplyEvent::NotAuthorized,
        ApplyEvent::Failed(String::new()),
    ] {
        assert!(t.is_terminal(), "{t:?}");
    }
}

/// Run `pump` over a canned conversation.
fn play(script: &str) -> (Vec<ApplyEvent>, bool) {
    let lines: Vec<String> = script.lines().map(|l| l.to_string()).collect();
    pump(&lines)
}

#[test]
fn conversation_refused() {
    let (evs, saw) = play("finding x\nerror sensitive constructs need explicit confirmation\n");
    assert!(saw);
    assert_eq!(evs.len(), 2);
    assert!(matches!(&evs[1], ApplyEvent::Refused(r) if r.contains("sensitive")));
}

#[test]
fn conversation_applied_then_kept() {
    let (evs, saw) = play("applied 30\nkept\n");
    assert!(saw);
    assert_eq!(evs, vec![ApplyEvent::Applied { secs: 30 }, ApplyEvent::Kept]);
}

#[test]
fn conversation_applied_then_reverted() {
    let (evs, saw) = play("applied 30\nreverted Eof\n");
    assert!(saw);
    assert_eq!(evs[1], ApplyEvent::Reverted("Eof".into()));
}

#[test]
fn conversation_revert_failed() {
    let (evs, saw) =
        play("applied 30\nrevert-failed rename: EROFS — the new config is still active\n");
    assert!(saw);
    assert!(matches!(&evs[1], ApplyEvent::RevertFailed(w) if w.contains("EROFS")));
}

#[test]
fn pump_stops_at_the_verdict() {
    // Trailing garbage after a terminal line must not produce more events.
    let (evs, saw) = play("kept\nfinding late\n");
    assert!(saw);
    assert_eq!(evs, vec![ApplyEvent::Kept]);
}

#[test]
fn eof_without_verdict_reports_unseen() {
    let (evs, saw) = play("finding x\napplied 30\n");
    assert!(!saw, "no terminal line: pump must say so");
    assert_eq!(evs.len(), 2);
    let (evs, saw) = play("");
    assert!(!saw);
    assert!(evs.is_empty());
}

#[test]
fn exit_codes_map_to_pkexec_semantics() {
    assert_eq!(map_exit(Some(126)), ApplyEvent::AuthDismissed);
    assert_eq!(map_exit(Some(127)), ApplyEvent::NotAuthorized);
    assert!(matches!(map_exit(Some(2)), ApplyEvent::Failed(m) if m.contains("exited 2")));
    assert!(matches!(map_exit(None), ApplyEvent::Failed(m) if m.contains("signal")));
}

fn request(op: ApplyOp, sensitive_ok: bool, len: usize) -> ApplyRequest {
    ApplyRequest {
        name: "hhkb".into(),
        bytes: vec![0u8; len],
        sensitive_ok,
        op,
        how: Invocation::Pkexec { tool: "/x".into() },
    }
}

#[test]
fn request_header_matches_the_tool_grammar() {
    assert_eq!(request_header(&request(ApplyOp::Apply, false, 120)), "apply hhkb 120\n");
    assert_eq!(
        request_header(&request(ApplyOp::Apply, true, 120)),
        "apply hhkb 120 sensitive-ok\n"
    );
    // Delete: no length, no payload, sensitive-ok ignored.
    assert_eq!(request_header(&request(ApplyOp::Delete, true, 999)), "delete hhkb\n");
}

#[test]
fn a_request_carries_its_payload_only_to_apply() {
    assert_eq!(request_bytes(&request(ApplyOp::Apply, false, 3)), b"apply hhkb 3\n\0\0\0");
    assert_eq!(request_bytes(&request(ApplyOp::Delete, false, 3)), b"delete hhkb\n");
}

#[test]
fn a_run_without_a_verdict_ends_by_its_exit() {
    assert_eq!(finish_run(true, ProcessEnd::Exited(Some(0))), None);
    assert_eq!(
        finish_run(false, ProcessEnd::Exited(Some(126))),
        Some(ApplyEvent::AuthDismissed)
    );
    assert!(matches!(
        finish_run(false, ProcessEnd::Lost("gone".into())),
        Some(ApplyEvent::Failed(_))
    ));
}

#[test]
fn keeping_writes_one_line_and_reverting_closes() {
    let mut h = ApplyHandle { open: true };
    assert_eq!(h.keep(), b"keep\n");
    h.revert(false);
    assert!(!h.open);
    assert!(h.keep().is_empty());
}

// ---- what included files hold ----

fn run(files: &[(&str, &str)], config: &str) -> Vec<IncludedFinding> {
    let base = scan(config.as_bytes());
    let seen: Vec<FileSeen> = include_candidates(&base, "root/conf", "root/data")
        .into_iter()
        .filter_map(|path| {
            let (_, body) = files.iter().find(|(rel, _)| format!("root/{rel}") == path)?;
            Some(FileSeen { path, content: Some(body.as_bytes().to_vec()) })
        })
        .collect();
    scan_includes(&base, "root/conf", "root/data", &seen)
}

#[test]
fn flags_command_inside_an_included_file() {
    let found = run(
        &[("conf/common", "[main]\nx = command(rm -rf /)\n")],
        "include common\n[main]\na = b\n",
    );
    assert_eq!(found.len(), 1);
    assert_eq!(found[0].include_arg, "common");
    assert!(found[0].file.ends_with("conf/common"));
    assert!(found[0].describe().contains("command line 2"), "{}", found[0].describe());
}

#[test]
fn resolves_from_data_dir_when_absent_beside_config() {
    let found = run(&[("data/shared", "[main]\nx = macro(C-a hi)\n")], "include shared\n");
    assert_eq!(found.len(), 1);
    assert!(found[0].file.ends_with("data/shared"));
    assert!(matches!(found[0].finding, Finding::Macro { .. }));
}

#[test]
fn config_dir_wins_over_data_dir() {
    let found = run(
        &[
            ("conf/dup", "[main]\nx = command(local)\n"),
            ("data/dup", "[main]\nx = command(shared)\n"),
        ],
        "include dup\n",
    );
    assert_eq!(found.len(), 1);
    assert!(found[0].file.ends_with("conf/dup"));
}

#[test]
fn clean_included_file_flags_nothing() {
    assert!(run(&[("conf/safe", "[main]\nx = y\ncapslock = esc\n")], "include safe\n").is_empty());
}

#[test]
fn missing_include_is_silently_skipped() {
    assert!(run(&[], "include nope\n[main]\na = b\n").is_empty());
}

#[test]
fn non_recursive_does_not_follow_includes_of_includes() {
    let files = [
        ("conf/mid", "include deep\n[main]\nx = y\n"),
        ("conf/deep", "[main]\nx = command(hidden)\n"),
    ];
    assert!(run(&files, "include mid\n").is_empty());
}

#[test]
fn absolute_and_dotdot_includes_are_never_followed() {
    let files = [("conf/evil", "[main]\nx = command(x)\n")];
    assert!(run(&files, "include /etc/evil\ninclude ../evil\n").is_empty());
}

// ---- how the tool is reached ----

fn here() -> Surroundings {
    Surroundings {
        debug: false,
        dev_dir: None,
        exe_dir: None,
        dev_tool_exists: false,
        tool_exists: true,
        pkexec_exists: true,
    }
}

#[test]
fn the_packaged_tool_goes_through_pkexec() {
    let how = one_click(&here()).unwrap();
    assert_eq!(how.config_dir(), "/etc/keyd");
    assert_eq!(command_line(&how)[0], "/usr/bin/pkexec");
    assert!(one_click(&Surroundings { tool_exists: false, ..here() }).is_none());
    assert!(one_click(&Surroundings { pkexec_exists: false, ..here() }).is_none());
}

#[test]
fn a_development_directory_needs_a_debug_build() {
    let dev = Surroundings {
        debug: true,
        dev_dir: Some("/tmp/d".into()),
        exe_dir: Some("/b".into()),
        dev_tool_exists: true,
        ..here()
    };
    let how = one_click(&dev).unwrap();
    assert_eq!(how.config_dir(), "/tmp/d");
    let release = Surroundings { debug: false, ..dev };
    assert_eq!(one_click(&release).unwrap().config_dir(), "/etc/keyd");
}

// ---- the panel ----

fn pkexec() -> Option<Invocation> {
    Some(Invocation::Pkexec { tool: "/x".into() })
}

fn review() -> Review {
    Review { notes: Vec::new(), included: Vec::new(), stale: None, diff: "+ a = b\n".into() }
}

#[test]
fn every_state_has_its_own_token() {
    let all = [
        ApplyState::Idle,
        ApplyState::Confirm,
        ApplyState::Auth,
        ApplyState::Countdown,
        ApplyState::Kept,
        ApplyState::Reverted,
        ApplyState::Failed,
        ApplyState::RevertFailed,
    ];
    for s in all {
        assert_eq!(ApplyState::from_token(s.as_str()), Some(s));
    }
    assert_eq!(ApplyState::from_token("nonsense"), None);
    assert!(apply_busy(ApplyState::Auth) && apply_busy(ApplyState::Countdown));
    assert!(!apply_busy(ApplyState::Idle));
    assert!(refuse_if_applying(ApplyState::Auth).is_some());
    assert!(refuse_if_applying(ApplyState::Kept).is_none());
}

#[test]
fn a_plain_config_launches_at_once() {
    let (ui, next) =
        start_apply(ApplyUi::new(), true, Some(b"[ids]\n*\n".to_vec()), None, &review());
    assert_eq!(next, Preflight::Launch);
    let session = SessionBytes { path: "/etc/keyd/hhkb.conf".into(), bytes: b"x".to_vec() };
    let (ui, req) = launch_apply(ui, pkexec(), Some(session), false);
    let req = req.unwrap();
    assert_eq!((req.name.as_str(), req.bytes.as_slice()), ("hhkb", b"x".as_slice()));
    let ui = started(ui, None);
    assert_eq!(ui.state, ApplyState::Auth);
}

#[test]
fn a_sensitive_config_waits_for_an_answer() {
    let r = Review { notes: vec!["it runs a command".into()], ..review() };
    let (ui, next) =
        start_apply(ApplyUi::new(), true, Some(b"a = command(x)\n".to_vec()), None, &r);
    assert_eq!(next, Preflight::Stop);
    assert_eq!(ui.state, ApplyState::Confirm);
    assert!(ui.info.contains("it runs a command") && ui.info.contains("+ a = b"));
    assert!(confirm_apply(ui.state));
    let (ui, _) = cancel_apply(ui);
    assert_eq!(ui.state, ApplyState::Idle);
}

#[test]
fn nothing_starts_without_changes_or_over_the_limit() {
    let (ui, next) = start_apply(ApplyUi::new(), false, Some(b"x".to_vec()), None, &review());
    assert_eq!((ui.state, next), (ApplyState::Idle, Preflight::Stop));
    let (ui, next) = start_apply(ApplyUi::new(), true, Some(vec![0; 65537]), None, &review());
    assert_eq!((ui.state, next), (ApplyState::Failed, Preflight::Stop));
    assert!(ui.info.contains("65537 bytes"), "{}", ui.info);
    let (ui, next) =
        start_apply(ApplyUi::new(), true, Some(b"x".to_vec()), Some("bad key".into()), &review());
    assert_eq!((ui.state, next), (ApplyState::Failed, Preflight::Stop));
    assert!(ui.info.contains("bad key"));
}

#[test]
fn a_kept_run_reopens_and_a_lost_one_fails() {
    let (ui, after) =
        handle_apply_event(ApplyUi::new(), ApplyEvent::Applied { secs: 30 }, None);
    assert_eq!(ui.state, ApplyState::Countdown);
    assert!(matches!(after, After::OpenDialog(30)));
    let (ui, after) = handle_apply_event(ui, ApplyEvent::Kept, Some("/etc/keyd/a.conf".into()));
    assert_eq!(ui.state, ApplyState::Kept);
    assert!(matches!(after, After::Reopen));
    let (ui, after) = handle_apply_event(ApplyUi::new(), ApplyEvent::Failed("x".into()), None);
    assert_eq!(ui.state, ApplyState::Failed);
    assert!(matches!(after, After::Nothing));
    let (ui, closed) = dialog_opened(ApplyUi::new(), Some("no window".into()));
    assert!(closed);
    assert_eq!(ui.info, "couldn't open the test window: no window \u{2014} reverting");
}

#[test]
fn a_deleted_board_is_dropped() {
    let (ui, req) = launch_delete(ApplyUi::new(), pkexec(), "hhkb", "/etc/keyd/hhkb.conf");
    assert_eq!(req.unwrap().op, ApplyOp::Delete);
    let (_, after) = handle_apply_event(ui, ApplyEvent::Kept, None);
    assert!(matches!(after, After::DropBoard(p) if p == "/etc/keyd/hhkb.conf"));
    let boards: Vec<String> = ["/a", "/b", "/c"].iter().map(|s| s.to_string()).collect();
    let (gone, active) = remove_config_after_delete(&boards, "/c", 2);
    assert_eq!((gone, active), (Some(2), 1));
}

#[test]
fn a_new_config_is_discarded_and_a_foreign_one_is_out_of_reach() {
    let path = Some("/home/me/x.conf".to_string());
    let (_, plan) = delete_config(ApplyUi::new(), &path, true, &pkexec());
    assert!(matches!(plan, DeletePlan::Discard));
    let (ui, plan) = delete_config(ApplyUi::new(), &path, false, &pkexec());
    assert!(matches!(plan, DeletePlan::Unreachable));
    assert_eq!(ui.state, ApplyState::Failed);
    let path = Some("/etc/keyd/x.conf".to_string());
    let (_, plan) = delete_config(ApplyUi::new(), &path, false, &pkexec());
    assert!(matches!(plan, DeletePlan::Launch(n) if n == "x"));
    assert_eq!(backups_of(&path, &pkexec()), Some("x".to_string()));
    assert_eq!(backups_of(&path, &None), None);
    let (ok, _) = apply_gate("/etc/keyd/x.conf", &pkexec());
    assert!(ok);
    assert_eq!(apply_gate("/home/me/x.conf", &pkexec()), (false, String::new()));
    let (ok, hint) = apply_gate("/etc/keyd/x.conf", &None);
    assert!(!ok && hint.contains("save draft"));
}

#[test]
fn restoring_a_backup_arms_its_bytes() {
    let b = BackupRead {
        bytes: Ok(b"[ids]\n*\n".to_vec()),
        rejected: None,
        age: "2 days ago".into(),
        date: "2026-01-01".into(),
        notes: Vec::new(),
    };
    let (ui, next) = restore_backup(ApplyUi::new(), Some(b));
    assert_eq!(next, Preflight::Launch);
    assert!(matches!(&ui.pending, Pending::Restore(x) if x == b"[ids]\n*\n"));
    let ui = reset_apply_ui(ui);
    assert_eq!((ui.state, ui.info.as_str()), (ApplyState::Idle, ""));
    let (ui, _) = teardown_apply(ui);
    assert!(!ui.running);
    let b = BackupRead {
        bytes: Err("gone".into()),
        rejected: None,
        age: String::new(),
        date: String::new(),
        notes: Vec::new(),
    };
    let (ui, next) = restore_backup(ApplyUi::new(), Some(b));
    assert_eq!((ui.state, next), (ApplyState::Failed, Preflight::Stop));
}

#[test]
fn a_backup_is_picked_by_its_row() {
    let one = |path: &str, stamp: u64| Backup { path: path.into(), stamp, size: 1 };
    let list = vec![one("/k/new", 9), one("/k/old", 3)];
    assert_eq!(pick_backup(&list, 1), Some(one("/k/old", 3)));
    assert_eq!(pick_backup(&list, 2), None);
    assert_eq!(pick_backup(&list, -1), None);
    let (ui, next) = restore_backup(ApplyUi::new(), None);
    assert_eq!((ui.state, next), (ApplyState::Idle, Preflight::Stop));
    assert!(matches!(ui.pending, Pending::Session));
}

/// The size as floating point would show it.
fn shown(n: u64) -> String {
    let f = n as f64;
    if n < 1024 {
        format!("{n} B")
    } else {
        format!("{:.1} KB", f / 1024.0)
    }
}

#[test]
fn sizes_are_rounded_to_a_tenth() {
    for n in [0, 1, 1023, 1024, 1075, 1076, 1536, 2047, 65536, 1048575, 1048576, 1572864, 9999999, u64::MAX] {
        assert_eq!(human_size(n), shown(n), "{n}");
    }
    assert_eq!(human_size(1536), "1.5 KB");
    assert!(backup_detail("2026-01-01", 1536).contains("1.5 KB"));
}

#[test]
fn the_restore_panel_lists_the_backups() {
    let found = vec![
        Backup { path: "/etc/keyd/.a.conf.keydviz-bak.20.1".into(), stamp: 20, size: 1536 },
        Backup { path: "/etc/keyd/.a.conf.keydviz-bak.10.1".into(), stamp: 10, size: 12 },
    ];
    let ages = vec!["just now".to_string(), "10 s ago".to_string()];
    let dates = vec!["1970-01-01 00:00:20".to_string(), "1970-01-01 00:00:10".to_string()];
    let (rows, any) = backup_rows(&found, &ages, &dates);
    assert!(any);
    assert_eq!(
        rows,
        vec![
            ("just now".to_string(), "1970-01-01 00:00:20 \u{00b7} 1.5 KB".to_string()),
            ("10 s ago".to_string(), "1970-01-01 00:00:10 \u{00b7} 12 B".to_string()),
        ]
    );
    assert_eq!(backup_rows(&Vec::new(), &Vec::new(), &Vec::new()), (Vec::new(), false));
}
