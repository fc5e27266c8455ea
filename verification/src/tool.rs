//! The privileged apply tool: one authenticated invocation, one apply.
//!
//! Protocol, line by line: the caller sends `apply <name> <len>[ sensitive-ok]` and
//! exactly `<len>` raw bytes, or `delete <name>` and nothing more. The tool answers an
//! apply with `finding <desc>` lines. Then it says either `error <reason>` (exit 2,
//! nothing changed) or `applied <secs>`; the caller then has `<secs>` to send `keep`. The
//! tool ends with `kept` (exit 0), `reverted <reason>` (exit 3) or `revert-failed <why>`
//! (exit 4).
//!
//! A [`ToolRun`] says what it wants done next and is told what came of it.

use crate::deadman::Verdict;
use crate::fault::Fault;
use crate::fault::FaultKind;
use crate::fault::FaultView;
use crate::names;
use crate::scan;
use crate::strings;
use crate::text;
use vstd::prelude::*;

verus! {

/// How long the client has to deliver the complete request, in seconds.
pub const REQUEST_TIMEOUT_SECS: u64 = 30;

/// How long the dead-man window is unless asked otherwise, in seconds.
pub const DEFAULT_TIMEOUT_SECS: u64 = 20;

// ---------------------------------------------------------------------------
// Options
// ---------------------------------------------------------------------------

/// What the tool was invoked with.
#[derive(Debug, PartialEq, Eq)]
pub struct Opts {
    pub dir: String,
    pub reload: bool,
    pub timeout: u64,
}

pub struct OptsView {
    pub dir: Seq<char>,
    pub reload: bool,
    pub timeout: nat,
}

impl View for Opts {
    type V = OptsView;

    open spec fn view(&self) -> OptsView {
        OptsView { dir: self.dir@, reload: self.reload, timeout: self.timeout as nat }
    }
}

/// The options without any flag.
pub open spec fn default_opts() -> OptsView {
    OptsView { dir: "/etc/keyd"@, reload: true, timeout: DEFAULT_TIMEOUT_SECS as nat }
}

/// The dead-man window asked for, made long enough to reach the keyboard and short
/// enough that a wedged session heals itself.
pub open spec fn clamp_timeout(secs: nat) -> nat {
    if secs < 5 {
        5
    } else if secs > 120 {
        120
    } else {
        secs
    }
}

/// The options after the flags, or why they are refused. The development flags exist
/// only in debug builds.
pub open spec fn opts_from(args: Seq<Seq<char>>, debug: bool, o: OptsView) -> Result<
    OptsView,
    Seq<char>,
>
    decreases args.len(),
{
    if args.len() == 0 {
        Ok(o)
    } else {
        let rest = args.subrange(1, args.len() as int);
        if args[0] == "--timeout"@ {
            if rest.len() == 0 {
                Err("--timeout needs seconds"@)
            } else {
                match text::parse_number(rest[0], 10, u64::MAX as nat) {
                    None => Err("bad --timeout value"@),
                    Some(secs) => opts_from(
                        rest.subrange(1, rest.len() as int),
                        debug,
                        OptsView { timeout: clamp_timeout(secs), ..o },
                    ),
                }
            }
        } else if args[0] == "--dev-dir"@ && debug {
            if rest.len() == 0 {
                Err("--dev-dir needs a path"@)
            } else {
                opts_from(
                    rest.subrange(1, rest.len() as int),
                    debug,
                    OptsView { dir: rest[0], ..o },
                )
            }
        } else if args[0] == "--dev-no-reload"@ && debug {
            opts_from(rest, debug, OptsView { reload: false, ..o })
        } else {
            Err("unknown flag "@ + args[0])
        }
    }
}

/// A result with its views.
pub open spec fn opts_result(r: Result<Opts, String>) -> Result<OptsView, Seq<char>> {
    match r {
        Ok(o) => Ok(o@),
        Err(e) => Err(e@),
    }
}

/// Read the flags, `args` being what follows the program's name.
pub fn parse_opts(args: &Vec<String>, debug: bool) -> (r: Result<Opts, String>)
    ensures
        opts_result(r) == opts_from(text::texts(args@), debug, default_opts()),
{
    let mut o = Opts {
        dir: strings::copy("/etc/keyd"),
        reload: true,
        timeout: DEFAULT_TIMEOUT_SECS,
    };
    let ghost all = text::texts(args@);
    let mut i: usize = 0;
    assert(all.subrange(0, all.len() as int) == all);
    while i < args.len()
        invariant
            i <= args@.len(),
            all == text::texts(args@),
            opts_from(all.subrange(i as int, all.len() as int), debug, o@) == opts_from(
                all,
                debug,
                default_opts(),
            ),
        decreases args.len() - i,
    {
        let ghost here = all.subrange(i as int, all.len() as int);
        let ghost rest = all.subrange(i + 1, all.len() as int);
        assert(here.subrange(1, here.len() as int) =~= rest);
        assert(here[0] == args@[i as int]@);
        let a = args[i].as_str();
        if strings::same(a, "--timeout") {
            if i + 1 >= args.len() {
                return Err(strings::copy("--timeout needs seconds"));
            }
            assert(rest[0] == args@[i + 1]@);
            assert(rest.subrange(1, rest.len() as int) =~= all.subrange(
                i + 2,
                all.len() as int,
            ));
            match strings::parse_number(args[i + 1].as_str(), 10, u64::MAX) {
                None => {
                    return Err(strings::copy("bad --timeout value"));
                },
                Some(secs) => {
                    let t: u64 = if secs < 5 {
                        5
                    } else if secs > 120 {
                        120
                    } else {
                        secs
                    };
                    o = Opts { dir: o.dir, reload: o.reload, timeout: t };
                },
            }
            i = i + 2;
        } else if strings::same(a, "--dev-dir") && debug {
            if i + 1 >= args.len() {
                return Err(strings::copy("--dev-dir needs a path"));
            }
            assert(rest[0] == args@[i + 1]@);
            assert(rest.subrange(1, rest.len() as int) =~= all.subrange(
                i + 2,
                all.len() as int,
            ));
            o = Opts {
                dir: strings::copy(args[i + 1].as_str()),
                reload: o.reload,
                timeout: o.timeout,
            };
            i = i + 2;
        } else if strings::same(a, "--dev-no-reload") && debug {
            o = Opts { dir: o.dir, reload: false, timeout: o.timeout };
            i = i + 1;
        } else {
            return Err(strings::cat("unknown flag ", a));
        }
    }
    Ok(o)
}

/// A release build accepts no overrides: whatever the flags, the directory is the one of
/// keyd and the reload is done, and the window stays within its bounds.
pub proof fn release_build_takes_no_overrides(args: Seq<Seq<char>>, debug: bool, o: OptsView)
    requires
        5 <= o.timeout <= 120,
    ensures
        opts_from(args, debug, o) is Ok ==> 5 <= opts_from(args, debug, o)->Ok_0.timeout <= 120,
        !debug && opts_from(args, debug, o) is Ok ==> opts_from(args, debug, o)->Ok_0.dir == o.dir
            && opts_from(args, debug, o)->Ok_0.reload == o.reload,
    decreases args.len(),
{
    if args.len() > 0 {
        let rest = args.subrange(1, args.len() as int);
        if args[0] == "--timeout"@ {
            if rest.len() > 0 && text::parse_number(rest[0], 10, u64::MAX as nat) is Some {
                let secs = text::parse_number(rest[0], 10, u64::MAX as nat)->0;
                release_build_takes_no_overrides(
                    rest.subrange(1, rest.len() as int),
                    debug,
                    OptsView { timeout: clamp_timeout(secs), ..o },
                );
            }
        } else if args[0] == "--dev-dir"@ && debug {
            if rest.len() > 0 {
                release_build_takes_no_overrides(
                    rest.subrange(1, rest.len() as int),
                    debug,
                    OptsView { dir: rest[0], ..o },
                );
            }
        } else if args[0] == "--dev-no-reload"@ && debug {
            release_build_takes_no_overrides(rest, debug, OptsView { reload: false, ..o });
        }
    }
}

// ---------------------------------------------------------------------------
// Request
// ---------------------------------------------------------------------------

/// A request line taken apart.
#[derive(Debug, PartialEq, Eq)]
pub struct Request {
    pub cmd: String,
    pub name: String,
    pub len: usize,
    pub sensitive_ok: bool,
}

pub struct RequestView {
    pub cmd: Seq<char>,
    pub name: Seq<char>,
    pub len: nat,
    pub sensitive_ok: bool,
}

impl View for Request {
    type V = RequestView;

    open spec fn view(&self) -> RequestView {
        RequestView {
            cmd: self.cmd@,
            name: self.name@,
            len: self.len as nat,
            sensitive_ok: self.sensitive_ok,
        }
    }
}

/// The words of a request line, by position; a length that is missing or no number is
/// one that is too large.
pub open spec fn request_of(line: Seq<char>) -> RequestView {
    let w = text::words(line);
    RequestView {
        cmd: if w.len() > 0 {
            w[0]
        } else {
            Seq::empty()
        },
        name: if w.len() > 1 {
            w[1]
        } else {
            Seq::empty()
        },
        len: if w.len() > 2 {
            text::parse_number(w[2], 10, usize::MAX as nat).unwrap_or(usize::MAX as nat)
        } else {
            usize::MAX as nat
        },
        sensitive_ok: w.len() > 3 && w[3] == "sensitive-ok"@,
    }
}

/// Take a request line apart.
pub fn parse_request(line: &str) -> (r: Request)
    ensures
        r@ == request_of(line@),
{
    let w = strings::words(line);
    let ghost all = text::words(line@);
    assert(w@.len() == all.len());
    assert(forall|i: int| 0 <= i < w@.len() ==> all[i] == #[trigger] w@[i]@);
    let cmd = if w.len() > 0 {
        strings::copy(w[0].as_str())
    } else {
        String::new()
    };
    let name = if w.len() > 1 {
        strings::copy(w[1].as_str())
    } else {
        String::new()
    };
    let len: usize = if w.len() > 2 {
        match strings::parse_number(w[2].as_str(), 10, usize::MAX as u64) {
            Some(n) => n as usize,
            None => usize::MAX,
        }
    } else {
        usize::MAX
    };
    let sensitive_ok = w.len() > 3 && strings::same(w[3].as_str(), "sensitive-ok");
    Request { cmd, name, len, sensitive_ok }
}

/// Why a request is refused before its payload is read, if it is. A delete has no
/// payload, so that its length does not matter.
pub open spec fn request_refusal(r: RequestView) -> Option<Seq<char>> {
    if r.cmd != "apply"@ && r.cmd != "delete"@ {
        Some("expected: apply <name> <len> [sensitive-ok]"@)
    } else if !names::is_valid_name(r.name) {
        Some("invalid config name"@)
    } else if r.cmd == "apply"@ && r.len > names::MAX_CONFIG_BYTES {
        Some("config too large"@)
    } else {
        None
    }
}

/// Some finding in the content must be acknowledged.
pub open spec fn is_sensitive(content: Seq<u8>) -> bool {
    exists|i: int|
        0 <= i < scan::findings(content).len() && (#[trigger] scan::findings(
            content,
        )[i]).needs_ack()
}

/// The lines that announce the findings.
pub open spec fn finding_lines(content: Seq<u8>) -> Seq<Seq<char>> {
    Seq::new(
        scan::findings(content).len(),
        |i: int| "finding "@ + scan::findings(content)[i].describe(),
    )
}

// ---------------------------------------------------------------------------
// The run
// ---------------------------------------------------------------------------

/// What an admitted request asks for.
#[derive(Debug)]
pub enum Job {
    /// Write the config `name` with the content.
    Apply { name: String, content: Vec<u8> },
    /// Remove the config `name`.
    Delete { name: String },
}

pub enum JobView {
    Apply { name: Seq<char>, content: Seq<u8> },
    Delete { name: Seq<char> },
}

impl View for Job {
    type V = JobView;

    open spec fn view(&self) -> JobView {
        match *self {
            Job::Apply { name, content } => JobView::Apply { name: name@, content: content@ },
            Job::Delete { name } => JobView::Delete { name: name@ },
        }
    }
}

/// How far an invocation has come. `fresh` is the file that an apply wrote, whose backups
/// are pruned once it is kept; none behind a delete.
#[derive(Debug)]
pub enum State {
    /// Waiting for the request line.
    Line,
    /// Waiting for the payload of an admitted request.
    Payload { name: String, len: usize, sensitive_ok: bool },
    /// Looking for the keyd binary.
    Locate { job: Job },
    /// Finding out whether `keyd check` works at all.
    Probe { job: Job },
    /// Opening the config directory.
    Open { job: Job },
    /// Writing the config.
    Write { name: String, content: Vec<u8> },
    /// Removing the config.
    Delete { name: String },
    /// Reloading keyd with the change.
    Reload { fresh: Option<String> },
    /// Waiting for the verdict.
    Watch { fresh: Option<String> },
    /// Keeping the change.
    Commit { fresh: Option<String> },
    /// Pruning the backups of what was kept.
    Prune { file: String },
    /// Reverting the change.
    Revert { reason: String },
    /// Reloading keyd with what was restored.
    ReloadRestored { reason: String },
    /// At the end, with this exit code.
    Exited(u8),
}

/// What the run wants done.
#[derive(Debug, PartialEq, Eq)]
pub enum Want {
    Line,
    Payload(usize),
    Locate,
    Probe,
    Open,
    Write { file: String, content: Vec<u8> },
    Delete { file: String },
    Reload,
    Watch(u64),
    Commit,
    /// Remove all but the newest backups of a file. Housekeeping: whatever comes of it,
    /// the run ends the same way.
    Prune { file: String, keep: usize },
    Revert,
    ReloadRestored,
    Exit(u8),
}

/// What came of it.
#[derive(Debug)]
pub enum Event {
    Line(String),
    Payload(Vec<u8>),
    /// Whether what was looked for is there.
    Found(bool),
    Done,
    Verdict(Verdict),
    Failed(Fault),
}

pub enum StateView {
    Line,
    Payload { name: Seq<char>, len: nat, sensitive_ok: bool },
    Locate { job: JobView },
    Probe { job: JobView },
    Open { job: JobView },
    Write { name: Seq<char>, content: Seq<u8> },
    Delete { name: Seq<char> },
    Reload { fresh: Option<Seq<char>> },
    Watch { fresh: Option<Seq<char>> },
    Commit { fresh: Option<Seq<char>> },
    Prune { file: Seq<char> },
    Revert { reason: Seq<char> },
    ReloadRestored { reason: Seq<char> },
    Exited(nat),
}

pub enum WantView {
    Line,
    Payload(nat),
    Locate,
    Probe,
    Open,
    Write { file: Seq<char>, content: Seq<u8> },
    Delete { file: Seq<char> },
    Reload,
    Watch(nat),
    Commit,
    Prune { file: Seq<char>, keep: nat },
    Revert,
    ReloadRestored,
    Exit(nat),
}

pub enum EventView {
    Line(Seq<char>),
    Payload(Seq<u8>),
    Found(bool),
    Done,
    Verdict(Verdict),
    Failed(FaultView),
}

impl View for State {
    type V = StateView;

    open spec fn view(&self) -> StateView {
        match *self {
            State::Line => StateView::Line,
            State::Payload { name, len, sensitive_ok } => StateView::Payload {
                name: name@,
                len: len as nat,
                sensitive_ok,
            },
            State::Locate { job } => StateView::Locate { job: job@ },
            State::Probe { job } => StateView::Probe { job: job@ },
            State::Open { job } => StateView::Open { job: job@ },
            State::Write { name, content } => StateView::Write { name: name@, content: content@ },
            State::Delete { name } => StateView::Delete { name: name@ },
            State::Reload { fresh } => StateView::Reload { fresh: text::opt(fresh) },
            State::Watch { fresh } => StateView::Watch { fresh: text::opt(fresh) },
            State::Commit { fresh } => StateView::Commit { fresh: text::opt(fresh) },
            State::Prune { file } => StateView::Prune { file: file@ },
            State::Revert { reason } => StateView::Revert { reason: reason@ },
            State::ReloadRestored { reason } => StateView::ReloadRestored { reason: reason@ },
            State::Exited(code) => StateView::Exited(code as nat),
        }
    }
}

impl View for Want {
    type V = WantView;

    open spec fn view(&self) -> WantView {
        match *self {
            Want::Line => WantView::Line,
            Want::Payload(n) => WantView::Payload(n as nat),
            Want::Locate => WantView::Locate,
            Want::Probe => WantView::Probe,
            Want::Open => WantView::Open,
            Want::Write { file, content } => WantView::Write { file: file@, content: content@ },
            Want::Delete { file } => WantView::Delete { file: file@ },
            Want::Reload => WantView::Reload,
            Want::Watch(secs) => WantView::Watch(secs as nat),
            Want::Commit => WantView::Commit,
            Want::Prune { file, keep } => WantView::Prune { file: file@, keep: keep as nat },
            Want::Revert => WantView::Revert,
            Want::ReloadRestored => WantView::ReloadRestored,
            Want::Exit(code) => WantView::Exit(code as nat),
        }
    }
}

impl View for Event {
    type V = EventView;

    open spec fn view(&self) -> EventView {
        match *self {
            Event::Line(s) => EventView::Line(s@),
            Event::Payload(b) => EventView::Payload(b@),
            Event::Found(b) => EventView::Found(b),
            Event::Done => EventView::Done,
            Event::Verdict(v) => EventView::Verdict(v),
            Event::Failed(f) => EventView::Failed(f@),
        }
    }
}

/// A state and the lines said on the way to it.
pub struct Move {
    pub state: StateView,
    pub says: Seq<Seq<char>>,
}

/// Refuse: say why and exit, nothing having been written.
pub open spec fn refuse(reason: Seq<char>) -> Move {
    Move { state: StateView::Exited(2), says: seq!["error "@ + reason] }
}

/// Go on without saying anything.
pub open spec fn quietly(state: StateView) -> Move {
    Move { state, says: Seq::empty() }
}

/// What a verdict is called where it is the reason of a revert.
pub open spec fn verdict_name(v: Verdict) -> Seq<char> {
    match v {
        Verdict::Keep => "Keep"@,
        Verdict::TimedOut => "TimedOut"@,
        Verdict::Eof => "Eof"@,
        Verdict::Refused => "Refused"@,
    }
}

/// The line that says a revert failed, with what can still be done.
pub open spec fn revert_failed_line(why: Seq<char>) -> Seq<char> {
    "revert-failed "@ + why
        + " — the new config is still active; restore the .keydviz-bak backup in the config directory, or press Backspace+Escape+Enter to terminate keyd"@
}

/// The dead-man window opens.
pub open spec fn open_window(o: OptsView, fresh: Option<Seq<char>>) -> Move {
    Move {
        state: StateView::Watch { fresh },
        says: seq!["applied "@ + text::decimal(o.timeout)],
    }
}

/// The directory has changed: keyd is reloaded, unless asked otherwise, and then the
/// window opens.
pub open spec fn changed(o: OptsView, fresh: Option<Seq<char>>) -> Move {
    if o.reload {
        quietly(StateView::Reload { fresh })
    } else {
        open_window(o, fresh)
    }
}

/// The file of a config.
pub open spec fn file_of(name: Seq<char>) -> Seq<char> {
    name + ".conf"@
}

/// The state after an event. An event that does not answer what is wanted changes
/// nothing.
pub open spec fn advance(o: OptsView, s: StateView, ev: EventView) -> Move {
    match s {
        StateView::Line => match ev {
            EventView::Line(line) => {
                let r = request_of(line);
                match request_refusal(r) {
                    Some(why) => refuse(why),
                    None => if r.cmd == "delete"@ {
                        quietly(StateView::Locate { job: JobView::Delete { name: r.name } })
                    } else {
                        quietly(
                            StateView::Payload {
                                name: r.name,
                                len: r.len,
                                sensitive_ok: r.sensitive_ok,
                            },
                        )
                    },
                }
            },
            EventView::Failed(f) => refuse(f.text),
            _ => quietly(s),
        },
        StateView::Payload { name, len, sensitive_ok } => match ev {
            EventView::Payload(content) => if content.len() != len {
                quietly(s)
            } else if is_sensitive(content) && !sensitive_ok {
                Move {
                    state: StateView::Exited(2),
                    says: finding_lines(content).push(
                        "error "@ + "sensitive constructs need explicit confirmation"@,
                    ),
                }
            } else {
                Move {
                    state: StateView::Locate { job: JobView::Apply { name, content } },
                    says: finding_lines(content),
                }
            },
            EventView::Failed(f) => refuse(f.text),
            _ => quietly(s),
        },
        StateView::Locate { job } => match ev {
            EventView::Found(there) => if there {
                quietly(StateView::Probe { job })
            } else {
                refuse("keyd binary not found in any system location"@)
            },
            _ => quietly(s),
        },
        StateView::Probe { job } => match ev {
            EventView::Found(works) => if works {
                quietly(StateView::Open { job })
            } else {
                refuse("keyd check unavailable; refusing to persist"@)
            },
            _ => quietly(s),
        },
        StateView::Open { job } => match ev {
            EventView::Done => match job {
                JobView::Apply { name, content } => quietly(StateView::Write { name, content }),
                JobView::Delete { name } => quietly(StateView::Delete { name }),
            },
            EventView::Failed(f) => refuse(f.text),
            _ => quietly(s),
        },
        StateView::Write { name, content } => match ev {
            EventView::Done => changed(o, Some(file_of(name))),
            EventView::Failed(f) => refuse(f.text),
            _ => quietly(s),
        },
        StateView::Delete { name } => match ev {
            EventView::Done => changed(o, None),
            EventView::Failed(f) => refuse(f.text),
            _ => quietly(s),
        },
        StateView::Reload { fresh } => match ev {
            EventView::Done => open_window(o, fresh),
            EventView::Failed(f) => quietly(
                StateView::Revert { reason: "reload-failed: "@ + f.text },
            ),
            _ => quietly(s),
        },
        StateView::Watch { fresh } => match ev {
            EventView::Verdict(v) => if v == Verdict::Keep {
                quietly(StateView::Commit { fresh })
            } else {
                quietly(StateView::Revert { reason: verdict_name(v) })
            },
            _ => quietly(s),
        },
        StateView::Commit { fresh } => match ev {
            EventView::Done => match fresh {
                Some(file) => quietly(StateView::Prune { file }),
                None => Move { state: StateView::Exited(0), says: seq!["kept"@] },
            },
            _ => quietly(s),
        },
        StateView::Prune { .. } => Move { state: StateView::Exited(0), says: seq!["kept"@] },
        StateView::Revert { reason } => match ev {
            EventView::Done => if o.reload {
                quietly(StateView::ReloadRestored { reason })
            } else {
                Move { state: StateView::Exited(3), says: seq!["reverted "@ + reason] }
            },
            EventView::Failed(f) => Move {
                state: StateView::Exited(4),
                says: seq![revert_failed_line(f.text)],
            },
            _ => quietly(s),
        },
        StateView::ReloadRestored { reason } => Move {
            state: StateView::Exited(3),
            says: seq!["reverted "@ + reason],
        },
        StateView::Exited(_) => quietly(s),
    }
}

/// What a state wants done, `keep` being how many backups of a config stay.
pub open spec fn want_of(o: OptsView, keep: nat, s: StateView) -> WantView {
    match s {
        StateView::Line => WantView::Line,
        StateView::Payload { len, .. } => WantView::Payload(len),
        StateView::Locate { .. } => WantView::Locate,
        StateView::Probe { .. } => WantView::Probe,
        StateView::Open { .. } => WantView::Open,
        StateView::Write { name, content } => WantView::Write { file: file_of(name), content },
        StateView::Delete { name } => WantView::Delete { file: file_of(name) },
        StateView::Reload { .. } => WantView::Reload,
        StateView::Watch { .. } => WantView::Watch(o.timeout),
        StateView::Commit { .. } => WantView::Commit,
        StateView::Prune { file } => WantView::Prune { file, keep },
        StateView::Revert { .. } => WantView::Revert,
        StateView::ReloadRestored { .. } => WantView::ReloadRestored,
        StateView::Exited(code) => WantView::Exit(code),
    }
}

/// One invocation of the tool.
#[derive(Debug)]
pub struct ToolRun {
    pub opts: Opts,
    /// How many backups of a config stay once one is kept.
    pub keep: usize,
    pub state: State,
}

/// One line to say.
fn one_line(s: String) -> (r: Vec<String>)
    ensures
        text::texts(r@) == seq![s@],
{
    let ghost v = s@;
    let mut r: Vec<String> = Vec::new();
    r.push(s);
    assert(text::texts(r@) =~= seq![v]);
    r
}

/// Nothing to say.
fn no_lines() -> (r: Vec<String>)
    ensures
        text::texts(r@) == Seq::<Seq<char>>::empty(),
{
    let r: Vec<String> = Vec::new();
    assert(text::texts(r@) =~= Seq::<Seq<char>>::empty());
    r
}

/// The lines that announce the findings, and whether one of them must be acknowledged.
fn review(content: &Vec<u8>) -> (r: (Vec<String>, bool))
    ensures
        text::texts(r.0@) == finding_lines(content@),
        r.1 == is_sensitive(content@),
{
    let found = scan::scan(content.as_slice());
    let ghost all = scan::findings(content@);
    let mut says: Vec<String> = Vec::new();
    let mut sensitive = false;
    let mut i: usize = 0;
    while i < found.len()
        invariant
            i <= found@.len(),
            text::views(found@) == all,
            says@.len() == i,
            forall|j: int| 0 <= j < i ==> #[trigger] says@[j]@ == "finding "@ + all[j].describe(),
            sensitive == (exists|j: int| 0 <= j < i && (#[trigger] all[j]).needs_ack()),
        decreases found.len() - i,
    {
        assert(all[i as int] == found@[i as int]@);
        says.push(strings::cat("finding ", found[i].describe().as_str()));
        if found[i].needs_ack() {
            sensitive = true;
        }
        i = i + 1;
    }
    assert(text::texts(says@) =~= finding_lines(content@));
    (says, sensitive)
}

/// Whether some finding in the content must be acknowledged.
pub fn sensitive(content: &Vec<u8>) -> (r: bool)
    ensures
        r == is_sensitive(content@),
{
    review(content).1
}

impl ToolRun {
    /// An invocation before anything is read, that will leave `keep` backups of a config
    /// that it wrote and that was kept.
    pub fn start(opts: Opts, keep: usize) -> (r: ToolRun)
        ensures
            r.opts@ == opts@,
            r.keep == keep,
            r.state@ == StateView::Line,
    {
        ToolRun { opts, keep, state: State::Line }
    }

    /// What the run wants done next.
    pub fn want(&self) -> (r: Want)
        ensures
            r@ == want_of(self.opts@, self.keep as nat, self.state@),
    {
        match &self.state {
            State::Line => Want::Line,
            State::Payload { len, .. } => Want::Payload(*len),
            State::Locate { .. } => Want::Locate,
            State::Probe { .. } => Want::Probe,
            State::Open { .. } => Want::Open,
            State::Write { name, content } => Want::Write {
                file: strings::cat(name.as_str(), ".conf"),
                content: strings::copy_bytes(content),
            },
            State::Delete { name } => Want::Delete { file: strings::cat(name.as_str(), ".conf") },
            State::Reload { .. } => Want::Reload,
            State::Watch { .. } => Want::Watch(self.opts.timeout),
            State::Commit { .. } => Want::Commit,
            State::Prune { file } => Want::Prune {
                file: strings::copy(file.as_str()),
                keep: self.keep,
            },
            State::Revert { .. } => Want::Revert,
            State::ReloadRestored { .. } => Want::ReloadRestored,
            State::Exited(code) => Want::Exit(*code),
        }
    }

    /// Refuse, saying why.
    fn refused(opts: Opts, keep: usize, reason: &str) -> (r: (ToolRun, Vec<String>))
        ensures
            r.0.opts@ == opts@,
            r.0.keep == keep,
            r.0.state@ == refuse(reason@).state,
            text::texts(r.1@) == refuse(reason@).says,
    {
        (
            ToolRun { opts, keep, state: State::Exited(2) },
            one_line(strings::cat("error ", reason)),
        )
    }

    /// Go on to a state without saying anything.
    fn at(opts: Opts, keep: usize, state: State) -> (r: (ToolRun, Vec<String>))
        ensures
            r.0.opts@ == opts@,
            r.0.keep == keep,
            r.0.state@ == state@,
            text::texts(r.1@) == Seq::<Seq<char>>::empty(),
    {
        (ToolRun { opts, keep, state }, no_lines())
    }

    /// End, saying so.
    fn ended(opts: Opts, keep: usize, code: u8, line: String) -> (r: (ToolRun, Vec<String>))
        ensures
            r.0.opts@ == opts@,
            r.0.keep == keep,
            r.0.state@ == StateView::Exited(code as nat),
            text::texts(r.1@) == seq![line@],
    {
        (ToolRun { opts, keep, state: State::Exited(code) }, one_line(line))
    }

    /// Open the dead-man window.
    fn watch(opts: Opts, keep: usize, fresh: Option<String>) -> (r: (ToolRun, Vec<String>))
        ensures
            r.0.opts@ == opts@,
            r.0.keep == keep,
            r.0.state@ == open_window(opts@, text::opt(fresh)).state,
            text::texts(r.1@) == open_window(opts@, text::opt(fresh)).says,
    {
        let line = strings::cat("applied ", strings::decimal(opts.timeout).as_str());
        (ToolRun { opts, keep, state: State::Watch { fresh } }, one_line(line))
    }

    /// The directory has changed.
    fn go_live(opts: Opts, keep: usize, fresh: Option<String>) -> (r: (ToolRun, Vec<String>))
        ensures
            r.0.opts@ == opts@,
            r.0.keep == keep,
            r.0.state@ == changed(opts@, text::opt(fresh)).state,
            text::texts(r.1@) == changed(opts@, text::opt(fresh)).says,
    {
        if opts.reload {
            Self::at(opts, keep, State::Reload { fresh })
        } else {
            Self::watch(opts, keep, fresh)
        }
    }

    /// Take in the request line.
    fn take_line(opts: Opts, keep: usize, line: &str) -> (r: (ToolRun, Vec<String>))
        ensures
            r.0.opts@ == opts@,
            r.0.keep == keep,
            r.0.state@ == advance(opts@, StateView::Line, EventView::Line(line@)).state,
            text::texts(r.1@) == advance(opts@, StateView::Line, EventView::Line(line@)).says,
    {
        let req = parse_request(line);
        let delete = strings::same(req.cmd.as_str(), "delete");
        if !delete && !strings::same(req.cmd.as_str(), "apply") {
            return Self::refused(opts, keep, "expected: apply <name> <len> [sensitive-ok]");
        }
        if !names::valid_name(req.name.as_str()) {
            return Self::refused(opts, keep, "invalid config name");
        }
        if delete {
            proof {
                reveal_strlit("apply");
                reveal_strlit("delete");
                assert("apply"@.len() != "delete"@.len());
            }
            return Self::at(opts, keep, State::Locate { job: Job::Delete { name: req.name } });
        }
        if req.len > names::MAX_CONFIG_BYTES {
            return Self::refused(opts, keep, "config too large");
        }
        Self::at(
            opts,
            keep,
            State::Payload { name: req.name, len: req.len, sensitive_ok: req.sensitive_ok },
        )
    }

    /// Take in the payload.
    fn take_payload(
        opts: Opts,
        keep: usize,
        name: String,
        content: Vec<u8>,
        sensitive_ok: bool,
    ) -> (r: (ToolRun, Vec<String>))
        ensures
            r.0.opts@ == opts@,
            r.0.keep == keep,
            ({
                let s = StateView::Payload { name: name@, len: content@.len(), sensitive_ok };
                let m = advance(opts@, s, EventView::Payload(content@));
                r.0.state@ == m.state && text::texts(r.1@) == m.says
            }),
    {
        let (mut says, sensitive) = review(&content);
        if sensitive && !sensitive_ok {
            let ghost before = text::texts(says@);
            let last = strings::cat("error ", "sensitive constructs need explicit confirmation");
            let ghost lastv = last@;
            says.push(last);
            assert(text::texts(says@) =~= before.push(lastv));
            return (ToolRun { opts, keep, state: State::Exited(2) }, says);
        }
        (ToolRun { opts, keep, state: State::Locate { job: Job::Apply { name, content } } }, says)
    }

    /// Take in what came of what was wanted, and give the lines to say.
    pub fn answer(self, ev: Event) -> (r: (ToolRun, Vec<String>))
        ensures
            r.0.opts@ == self.opts@,
            r.0.keep == self.keep,
            r.0.state@ == advance(self.opts@, self.state@, ev@).state,
            text::texts(r.1@) == advance(self.opts@, self.state@, ev@).says,
    {
        let opts = self.opts;
        let keep: usize = self.keep;
        match self.state {
            State::Line => match ev {
                Event::Line(line) => Self::take_line(opts, keep, line.as_str()),
                Event::Failed(f) => Self::refused(opts, keep, f.text.as_str()),
                _ => Self::at(opts, keep, State::Line),
            },
            State::Payload { name, len, sensitive_ok } => match ev {
                Event::Payload(content) => {
                    if content.len() != len {
                        return Self::at(opts, keep, State::Payload { name, len, sensitive_ok });
                    }
                    Self::take_payload(opts, keep, name, content, sensitive_ok)
                },
                Event::Failed(f) => Self::refused(opts, keep, f.text.as_str()),
                _ => Self::at(opts, keep, State::Payload { name, len, sensitive_ok }),
            },
            State::Locate { job } => match ev {
                Event::Found(there) => if there {
                    Self::at(opts, keep, State::Probe { job })
                } else {
                    Self::refused(opts, keep, "keyd binary not found in any system location")
                },
                _ => Self::at(opts, keep, State::Locate { job }),
            },
            State::Probe { job } => match ev {
                Event::Found(works) => if works {
                    Self::at(opts, keep, State::Open { job })
                } else {
                    Self::refused(opts, keep, "keyd check unavailable; refusing to persist")
                },
                _ => Self::at(opts, keep, State::Probe { job }),
            },
            State::Open { job } => match ev {
                Event::Done => match job {
                    Job::Apply { name, content } => Self::at(
                        opts,
                        keep,
                        State::Write { name, content },
                    ),
                    Job::Delete { name } => Self::at(opts, keep, State::Delete { name }),
                },
                Event::Failed(f) => Self::refused(opts, keep, f.text.as_str()),
                _ => Self::at(opts, keep, State::Open { job }),
            },
            State::Write { name, content } => match ev {
                Event::Done => {
                    let file = strings::cat(name.as_str(), ".conf");
                    Self::go_live(opts, keep, Some(file))
                },
                Event::Failed(f) => Self::refused(opts, keep, f.text.as_str()),
                _ => Self::at(opts, keep, State::Write { name, content }),
            },
            State::Delete { name } => match ev {
                Event::Done => Self::go_live(opts, keep, None),
                Event::Failed(f) => Self::refused(opts, keep, f.text.as_str()),
                _ => Self::at(opts, keep, State::Delete { name }),
            },
            State::Reload { fresh } => match ev {
                Event::Done => Self::watch(opts, keep, fresh),
                Event::Failed(f) => Self::at(
                    opts,
                    keep,
                    State::Revert { reason: strings::cat("reload-failed: ", f.text.as_str()) },
                ),
                _ => Self::at(opts, keep, State::Reload { fresh }),
            },
            State::Watch { fresh } => match ev {
                Event::Verdict(v) => match v {
                    Verdict::Keep => Self::at(opts, keep, State::Commit { fresh }),
                    Verdict::TimedOut => Self::at(
                        opts,
                        keep,
                        State::Revert { reason: strings::copy("TimedOut") },
                    ),
                    Verdict::Eof => Self::at(
                        opts,
                        keep,
                        State::Revert { reason: strings::copy("Eof") },
                    ),
                    Verdict::Refused => Self::at(
                        opts,
                        keep,
                        State::Revert { reason: strings::copy("Refused") },
                    ),
                },
                _ => Self::at(opts, keep, State::Watch { fresh }),
            },
            State::Commit { fresh } => match ev {
                Event::Done => match fresh {
                    Some(file) => Self::at(opts, keep, State::Prune { file }),
                    None => Self::ended(opts, keep, 0, strings::copy("kept")),
                },
                _ => Self::at(opts, keep, State::Commit { fresh }),
            },
            State::Prune { .. } => Self::ended(opts, keep, 0, strings::copy("kept")),
            State::Revert { reason } => match ev {
                Event::Done => if opts.reload {
                    Self::at(opts, keep, State::ReloadRestored { reason })
                } else {
                    Self::ended(opts, keep, 3, strings::cat("reverted ", reason.as_str()))
                },
                Event::Failed(f) => {
                    let line = strings::cat3(
                        "revert-failed ",
                        f.text.as_str(),
                        " — the new config is still active; restore the .keydviz-bak backup in the config directory, or press Backspace+Escape+Enter to terminate keyd",
                    );
                    Self::ended(opts, keep, 4, line)
                },
                _ => Self::at(opts, keep, State::Revert { reason }),
            },
            State::ReloadRestored { reason } => Self::ended(
                opts,
                keep,
                3,
                strings::cat("reverted ", reason.as_str()),
            ),
            State::Exited(code) => Self::at(opts, keep, State::Exited(code)),
        }
    }
}

// ---------------------------------------------------------------------------
// What holds of every run
// ---------------------------------------------------------------------------

/// The directory has changed, and the change is neither kept nor reverted yet.
pub open spec fn is_live(s: StateView) -> bool {
    s is Reload || s is Watch || s is Commit || s is Revert
}

/// The next step changes the directory.
pub open spec fn is_changing(s: StateView) -> bool {
    s is Write || s is Delete
}

/// A request that passed every gate in front of the disk: a name that stays in the
/// directory, a size keyd can read, and nothing sensitive that was not acknowledged.
pub open spec fn passed_gates(name: Seq<char>, content: Seq<u8>, sensitive_ok: bool) -> bool {
    &&& names::is_valid_name(name)
    &&& content.len() <= names::MAX_CONFIG_BYTES
    &&& is_sensitive(content) ==> sensitive_ok
}

/// A job that passed every gate in front of the disk. A delete has only its name.
pub open spec fn job_passed(job: JobView, sensitive_ok: bool) -> bool {
    match job {
        JobView::Apply { name, content } => passed_gates(name, content, sensitive_ok),
        JobView::Delete { name } => names::is_valid_name(name),
    }
}

/// What is known of a run in each state, `ok` being whether the request carried the
/// acknowledgement.
pub open spec fn gated(s: StateView, ok: bool) -> bool {
    match s {
        StateView::Payload { name, len, sensitive_ok } => names::is_valid_name(name) && len
            <= names::MAX_CONFIG_BYTES && sensitive_ok == ok,
        StateView::Locate { job } => job_passed(job, ok),
        StateView::Probe { job } => job_passed(job, ok),
        StateView::Open { job } => job_passed(job, ok),
        StateView::Write { name, content } => passed_gates(name, content, ok),
        StateView::Delete { name } => names::is_valid_name(name),
        _ => true,
    }
}

/// Nothing is written or removed unless every gate was passed: each state keeps what the
/// gates established, from the request line on. A change comes only behind a keyd whose
/// check works and a directory that was opened.
pub proof fn nothing_is_written_past_a_gate(
    o: OptsView,
    keep: nat,
    s: StateView,
    ev: EventView,
    ok: bool,
)
    requires
        gated(s, ok),
        s is Line ==> (ev matches EventView::Line(line) ==> request_of(line).sensitive_ok == ok),
    ensures
        gated(advance(o, s, ev).state, ok),
        want_of(o, keep, s) is Write ==> s is Write,
        want_of(o, keep, s) is Delete ==> s is Delete,
        s matches StateView::Write { name, content } ==> passed_gates(name, content, ok) && want_of(
            o,
            keep,
            s,
        ) == (WantView::Write { file: file_of(name), content }),
        s matches StateView::Delete { name } ==> names::is_valid_name(name) && want_of(o, keep, s)
            == (WantView::Delete { file: file_of(name) }),
        is_changing(advance(o, s, ev).state) && !is_changing(s) ==> s is Open && ev is Done,
        advance(o, s, ev).state is Open && !(s is Open) ==> s is Probe && ev
            == EventView::Found(true),
        advance(o, s, ev).state is Probe && !(s is Probe) ==> s is Locate && ev
            == EventView::Found(true),
{
}

/// Only a `Keep` verdict keeps: a run exits with success only out of the commit or the
/// pruning behind it, and gets to the commit only by that verdict.
pub proof fn only_keep_persists(o: OptsView, s: StateView, ev: EventView)
    ensures
        advance(o, s, ev).state == StateView::Exited(0) && s != StateView::Exited(0) ==> s is Commit
            || s is Prune,
        advance(o, s, ev).state is Prune && !(s is Prune) ==> s is Commit && ev is Done,
        advance(o, s, ev).state is Commit && !(s is Commit) ==> s is Watch && ev
            == EventView::Verdict(Verdict::Keep),
{
}

/// Pruning is housekeeping: whatever comes of it, a kept config is announced as kept.
pub proof fn pruning_cannot_fail_a_keep(o: OptsView, file: Seq<char>, ev: EventView)
    ensures
        advance(o, StateView::Prune { file }, ev).state == StateView::Exited(0),
        advance(o, StateView::Prune { file }, ev).says == seq!["kept"@],
{
}

/// A config that went live leaves that state only by being kept or by being reverted: a
/// failed reload and every verdict but `Keep` lead to the revert, and the revert ends in
/// `reverted` or in `revert-failed`.
pub proof fn live_is_kept_or_reverted(o: OptsView, s: StateView, ev: EventView)
    requires
        is_live(s),
    ensures
        ({
            let next = advance(o, s, ev).state;
            ||| is_live(next)
            ||| s is Commit && ev is Done && (next is Prune || next == StateView::Exited(0))
            ||| s is Revert && ev is Done && (next is ReloadRestored || next
                == StateView::Exited(3))
            ||| s is Revert && ev is Failed && next == StateView::Exited(4)
        }),
        s is Reload && ev is Failed ==> advance(o, s, ev).state is Revert,
        s is Watch && ev is Verdict && ev != EventView::Verdict(Verdict::Keep) ==> advance(
            o,
            s,
            ev,
        ).state is Revert,
{
}

/// Every exit is announced by its own line: `kept` with 0, `error` with 2, `reverted`
/// with 3, `revert-failed` with 4, and there is no other exit.
pub proof fn exits_are_announced(o: OptsView, s: StateView, ev: EventView)
    requires
        !(s is Exited),
        advance(o, s, ev).state is Exited,
    ensures
        ({
            let m = advance(o, s, ev);
            let code = m.state->Exited_0;
            &&& m.says.len() > 0
            &&& code == 0 ==> m.says.last() == "kept"@
            &&& code == 2 ==> text::starts_with(m.says.last(), "error "@)
            &&& code == 3 ==> text::starts_with(m.says.last(), "reverted "@)
            &&& code == 4 ==> text::starts_with(m.says.last(), "revert-failed "@)
            &&& code == 0 || code == 2 || code == 3 || code == 4
        }),
{
    let m = advance(o, s, ev);
    let line = m.says.last();
    let code = m.state->Exited_0;
    if code == 2 {
        assert(line.subrange(0, "error "@.len() as int) =~= "error "@);
    }
    if code == 3 {
        assert(line.subrange(0, "reverted "@.len() as int) =~= "reverted "@);
    }
    if code == 4 {
        assert(line.subrange(0, "revert-failed "@.len() as int) =~= "revert-failed "@);
    }
}

/// Refusing (exit 2) happens only while nothing of this run is on disk.
pub proof fn refusals_come_before_the_write(o: OptsView, s: StateView, ev: EventView)
    requires
        is_live(s) || s is Prune || s is ReloadRestored,
    ensures
        advance(o, s, ev).state != StateView::Exited(2),
{
}

/// The state of a run after what it was told.
pub open spec fn after(o: OptsView, told: Seq<EventView>) -> StateView
    decreases told.len(),
{
    if told.len() == 0 {
        StateView::Line
    } else {
        advance(o, after(o, told.drop_last()), told.last()).state
    }
}

/// The run was told that its write or its removal is done.
pub open spec fn has_written(o: OptsView, told: Seq<EventView>) -> bool
    decreases told.len(),
{
    told.len() > 0 && (has_written(o, told.drop_last()) || (is_changing(
        after(o, told.drop_last()),
    ) && told.last() is Done))
}

/// The run was told that its revert is done.
pub open spec fn has_reverted(o: OptsView, told: Seq<EventView>) -> bool
    decreases told.len(),
{
    told.len() > 0 && (has_reverted(o, told.drop_last()) || (after(o, told.drop_last()) is Revert
        && told.last() is Done))
}

/// However a run goes, it ends in one of four ways: refused with nothing changed, kept on
/// the caller's `keep`, reverted with the revert done, or with a revert that failed. A
/// change is never left behind in silence.
pub proof fn every_run_ends_safely(o: OptsView, told: Seq<EventView>)
    ensures
        has_written(o, told) <==> is_live(after(o, told)) || after(o, told) is Prune || after(
            o,
            told,
        ) is ReloadRestored || after(o, told) is Exited && after(o, told) != StateView::Exited(2),
        has_reverted(o, told) <==> after(o, told) is ReloadRestored || after(o, told)
            == StateView::Exited(3),
        after(o, told) is Commit || after(o, told) is Prune || after(o, told) == StateView::Exited(
            0,
        ) ==> told.contains(EventView::Verdict(Verdict::Keep)),
        after(o, told) matches StateView::Exited(code) ==> code == 0 || code == 2 || code == 3
            || code == 4,
    decreases told.len(),
{
    if told.len() > 0 {
        let front = told.drop_last();
        every_run_ends_safely(o, front);
        let keep = EventView::Verdict(Verdict::Keep);
        if front.contains(keep) {
            let i = choose|i: int| 0 <= i < front.len() && front[i] == keep;
            assert(told[i] == keep);
        }
        assert(told[told.len() - 1] == told.last());
    }
}

/// The job is what the request line asked for, with the payload as it was received.
pub open spec fn was_asked_for(job: JobView, told: Seq<EventView>, line: Seq<char>) -> bool {
    let r = request_of(line);
    &&& told.contains(EventView::Line(line))
    &&& job_passed(job, r.sensitive_ok)
    &&& match job {
        JobView::Apply { name, content } => {
            &&& r.cmd == "apply"@
            &&& r.name == name
            &&& r.len == content.len()
            &&& told.contains(EventView::Payload(content))
        },
        JobView::Delete { name } => r.cmd == "delete"@ && r.name == name,
    }
}

/// What stands behind a state: the request line that it was admitted by and, once it was
/// read, the payload.
pub open spec fn is_grounded(s: StateView, told: Seq<EventView>, line: Seq<char>) -> bool {
    let r = request_of(line);
    match s {
        StateView::Payload { name, len, sensitive_ok } => told.contains(EventView::Line(line))
            && r.cmd == "apply"@ && r.name == name && r.len == len && r.sensitive_ok
            == sensitive_ok && request_refusal(r) is None,
        StateView::Locate { job } => was_asked_for(job, told, line),
        StateView::Probe { job } => was_asked_for(job, told, line),
        StateView::Open { job } => was_asked_for(job, told, line),
        StateView::Write { name, content } => was_asked_for(
            JobView::Apply { name, content },
            told,
            line,
        ),
        StateView::Delete { name } => was_asked_for(JobView::Delete { name }, told, line),
        _ => true,
    }
}

/// What is written is what was asked for: the payload as it was received, under the name
/// in the request line, with every gate passed. And only what the request line names is
/// removed.
pub proof fn what_is_written_was_asked_for(o: OptsView, told: Seq<EventView>)
    ensures
        exists|line: Seq<char>| #[trigger] is_grounded(after(o, told), told, line),
    decreases told.len(),
{
    if told.len() > 0 {
        let front = told.drop_last();
        what_is_written_was_asked_for(o, front);
        let s = after(o, front);
        let line = choose|line: Seq<char>| #[trigger] is_grounded(s, front, line);
        assert forall|e: EventView| front.contains(e) implies told.contains(e) by {
            let i = choose|i: int| 0 <= i < front.len() && front[i] == e;
            assert(told[i] == e);
        }
        assert(told[told.len() - 1] == told.last());
        match (s, told.last()) {
            (StateView::Line, EventView::Line(l)) => {
                assert(is_grounded(after(o, told), told, l));
            },
            _ => {
                assert(is_grounded(after(o, told), told, line));
            },
        }
    } else {
        assert(is_grounded(after(o, told), told, Seq::empty()));
    }
}

/// Some line announces that the change is live.
pub open spec fn announces(says: Seq<Seq<char>>) -> bool {
    exists|i: int| 0 <= i < says.len() && text::starts_with(#[trigger] says[i], "applied "@)
}

/// Nobody is asked to keep what keyd does not run: where keyd is to be reloaded, the window
/// opens, and `applied` is said, only once that reload is done. Behind every change stands
/// the reload, behind a failed one the revert, and behind the revert the reload of what was
/// restored. Where it is not to be reloaded, none is asked for.
pub proof fn the_window_opens_on_what_keyd_runs(
    o: OptsView,
    keep: nat,
    s: StateView,
    ev: EventView,
)
    ensures
        ({
            let m = advance(o, s, ev);
            &&& o.reload && m.state is Watch && !(s is Watch) ==> s is Reload && ev is Done
            &&& m.state is Watch && !(s is Watch) ==> announces(m.says)
            &&& announces(m.says) ==> m.state is Watch && !(s is Watch) && ev is Done && m.says
                == seq!["applied "@ + text::decimal(o.timeout)]
            &&& o.reload && (s is Write || s is Delete) && ev is Done ==> m.state is Reload
            &&& s is Reload && ev is Done ==> m.state is Watch
            &&& s is Reload && ev is Failed ==> m.state is Revert
            &&& o.reload && s is Revert && ev is Done ==> m.state is ReloadRestored
            &&& o.reload && m.state == StateView::Exited(3) && !(s is Exited) ==> s is ReloadRestored
            &&& !o.reload && (s is Write || s is Delete) && ev is Done ==> m.state is Watch
            &&& !o.reload && !(s is Reload) ==> !(m.state is Reload)
            &&& !o.reload && !(s is ReloadRestored) ==> !(m.state is ReloadRestored)
            &&& want_of(o, keep, s) == WantView::Reload <==> s is Reload
            &&& want_of(o, keep, s) == WantView::ReloadRestored <==> s is ReloadRestored
            &&& want_of(o, keep, s) is Watch <==> s is Watch
            &&& s is Watch ==> want_of(o, keep, s) == WantView::Watch(o.timeout)
            &&& want_of(o, keep, s) == WantView::Commit <==> s is Commit
            &&& want_of(o, keep, s) == WantView::Revert <==> s is Revert
        }),
{
    reveal_strlit("applied ");
    reveal_strlit("error ");
    reveal_strlit("finding ");
    reveal_strlit("kept");
    reveal_strlit("reverted ");
    reveal_strlit("revert-failed ");
    let m = advance(o, s, ev);
    if m.state is Watch && !(s is Watch) {
        let line = "applied "@ + text::decimal(o.timeout);
        assert(m.says[0] == line);
        assert(line.subrange(0, "applied "@.len() as int) =~= "applied "@);
        assert(text::starts_with(m.says[0], "applied "@));
    }
    if announces(m.says) {
        let i = choose|i: int|
            0 <= i < m.says.len() && text::starts_with(#[trigger] m.says[i], "applied "@);
        let line = m.says[i];
        assert(line.subrange(0, "applied "@.len() as int)[0] == 'a');
        assert(line[0] == 'a');
        if !(m.state is Watch && !(s is Watch)) {
            assert(line[0] == 'e' || line[0] == 'f' || line[0] == 'k' || line[0] == 'r');
        }
    }
}

/// The run was told that what it wanted, which was `w`, is done.
pub open spec fn was_done(o: OptsView, keep: nat, told: Seq<EventView>, w: WantView) -> bool
    decreases told.len(),
{
    told.len() > 0 && (was_done(o, keep, told.drop_last(), w) || (want_of(
        o,
        keep,
        after(o, told.drop_last()),
    ) == w && told.last() is Done))
}

/// However a run goes: it comes to the window, to the commit and to a success only once
/// keyd was reloaded behind the change, and to `reverted` only once the revert was done and
/// keyd had the chance to reload what it restored.
pub proof fn what_is_kept_was_live(o: OptsView, keep: nat, told: Seq<EventView>)
    requires
        o.reload,
    ensures
        ({
            let s = after(o, told);
            &&& s is Watch || s is Commit || s is Prune || s == StateView::Exited(0) ==> was_done(
                o,
                keep,
                told,
                WantView::Reload,
            ) && has_written(o, told)
            &&& s is ReloadRestored || s == StateView::Exited(3) ==> was_done(
                o,
                keep,
                told,
                WantView::Revert,
            )
            &&& s is Reload || s is Revert ==> has_written(o, told)
            &&& s is Prune || s == StateView::Exited(0) ==> was_done(
                o,
                keep,
                told,
                WantView::Commit,
            )
        }),
    decreases told.len(),
{
    if told.len() > 0 {
        let front = told.drop_last();
        what_is_kept_was_live(o, keep, front);
        the_window_opens_on_what_keyd_runs(o, keep, after(o, front), told.last());
    }
}

/// The run after one more event.
proof fn one_more(o: OptsView, told: Seq<EventView>, ev: EventView)
    ensures
        after(o, told.push(ev)) == advance(o, after(o, told), ev).state,
{
    assert(told.push(ev).drop_last() =~= told);
}

/// What is told to a run that is admitted and meets no obstacle, up to its change: the
/// request line, the payload where there is one, and that keyd is there, that its check
/// works, and that the directory opens.
pub open spec fn smooth_start(line: Seq<char>, content: Option<Seq<u8>>) -> Seq<EventView> {
    let asked = match content {
        Some(c) => seq![EventView::Line(line), EventView::Payload(c)],
        None => seq![EventView::Line(line)],
    };
    asked.push(EventView::Found(true)).push(EventView::Found(true)).push(EventView::Done)
}

/// A good request is carried out: an apply with a good name, its whole payload, and nothing
/// sensitive in it or an acknowledgement, comes to the write of exactly that payload under
/// that name; a delete with a good name comes to the removal of that file.
pub proof fn a_good_request_reaches_the_disk(
    o: OptsView,
    keep: nat,
    line: Seq<char>,
    content: Seq<u8>,
)
    requires
        text::words(line).len() >= 2,
        names::is_valid_name(text::words(line)[1]),
    ensures
        ({
            let w = text::words(line);
            &&& w[0] == "delete"@ ==> want_of(o, keep, after(o, smooth_start(line, None)))
                == (WantView::Delete { file: w[1] + ".conf"@ })
            &&& w[0] == "apply"@ && w.len() >= 3 && text::parse_number(w[2], 10, usize::MAX as nat)
                == Some(content.len()) && content.len() <= names::MAX_CONFIG_BYTES && (
            is_sensitive(content) ==> w.len() >= 4 && w[3] == "sensitive-ok"@) ==> want_of(
                o,
                keep,
                after(o, smooth_start(line, Some(content))),
            ) == (WantView::Write { file: w[1] + ".conf"@, content })
        }),
{
    reveal_strlit("apply");
    reveal_strlit("delete");
    assert("apply"@.len() != "delete"@.len());
    let w = text::words(line);
    let none = Seq::<EventView>::empty();
    let one = none.push(EventView::Line(line));
    one_more(o, none, EventView::Line(line));
    if w[0] == "delete"@ {
        let two = one.push(EventView::Found(true));
        let three = two.push(EventView::Found(true));
        one_more(o, one, EventView::Found(true));
        one_more(o, two, EventView::Found(true));
        one_more(o, three, EventView::Done);
        assert(smooth_start(line, None) =~= three.push(EventView::Done));
    } else {
        let asked = one.push(EventView::Payload(content));
        let two = asked.push(EventView::Found(true));
        let three = two.push(EventView::Found(true));
        one_more(o, one, EventView::Payload(content));
        one_more(o, asked, EventView::Found(true));
        one_more(o, two, EventView::Found(true));
        one_more(o, three, EventView::Done);
        assert(smooth_start(line, Some(content)) =~= three.push(EventView::Done));
    }
}

/// What a change comes to whose steps all go well: with `keep` it is committed, its backups
/// are pruned where it was a write, and the run ends as kept; with any other verdict it is
/// reverted, with the verdict as the reason, and the run ends as reverted. Where keyd is to
/// be reloaded it is, before the window opens and behind the revert.
pub proof fn the_verdict_decides(o: OptsView, keep: nat, s: StateView, v: Verdict)
    requires
        s is Write || s is Delete,
    ensures
        ({
            let done = EventView::Done;
            let changed = advance(o, s, done);
            let live = if o.reload {
                advance(o, changed.state, done)
            } else {
                changed
            };
            let decided = advance(o, live.state, EventView::Verdict(v)).state;
            let next = advance(o, decided, done);
            &&& o.reload ==> want_of(o, keep, changed.state) == WantView::Reload
            &&& want_of(o, keep, live.state) == WantView::Watch(o.timeout)
            &&& live.says == seq!["applied "@ + text::decimal(o.timeout)]
            &&& v == Verdict::Keep ==> {
                &&& want_of(o, keep, decided) == WantView::Commit
                &&& s matches StateView::Write { name, .. } ==> want_of(o, keep, next.state) == (
                WantView::Prune { file: name + ".conf"@, keep }) && advance(
                    o,
                    next.state,
                    done,
                ).state == StateView::Exited(0) && advance(o, next.state, done).says == seq!["kept"@]
                &&& s is Delete ==> next.state == StateView::Exited(0) && next.says == seq!["kept"@]
            }
            &&& v != Verdict::Keep ==> {
                let why = if v == Verdict::TimedOut {
                    "TimedOut"@
                } else if v == Verdict::Eof {
                    "Eof"@
                } else {
                    "Refused"@
                };
                let end = if o.reload {
                    advance(o, next.state, done)
                } else {
                    next
                };
                &&& want_of(o, keep, decided) == WantView::Revert
                &&& o.reload ==> want_of(o, keep, next.state) == WantView::ReloadRestored
                &&& end.state == StateView::Exited(3)
                &&& end.says == seq!["reverted "@ + why]
            }
        }),
{
}

/// A run that is refused says why: the request that cannot be read, the name that is no
/// config's, the size that is too large, and what fails in front of the disk. Content that
/// needs an acknowledgement and has none is refused behind its findings.
pub proof fn a_refusal_says_why(o: OptsView, s: StateView, line: Seq<char>, content: Seq<u8>, f: FaultView)
    ensures
        ({
            let w = text::words(line);
            let m = advance(o, StateView::Line, EventView::Line(line));
            let asks = w.len() > 0 && (w[0] == "apply"@ || w[0] == "delete"@);
            let named = w.len() > 1 && names::is_valid_name(w[1]);
            &&& m.state is Exited <==> !(asks && named && (w[0] == "apply"@ ==> w.len() > 2 && (
            text::parse_number(w[2], 10, usize::MAX as nat) matches Some(n) && n
                <= names::MAX_CONFIG_BYTES)))
            &&& !asks ==> m.says == seq!["error "@ + "expected: apply <name> <len> [sensitive-ok]"@]
            &&& asks && !named ==> m.says == seq!["error "@ + "invalid config name"@]
            &&& asks && named && m.state is Exited ==> m.says == seq![
                "error "@ + "config too large"@,
            ]
        }),
        s is Write || s is Delete || s is Open || s is Payload || s is Line ==> advance(
            o,
            s,
            EventView::Failed(f),
        ) == (Move { state: StateView::Exited(2), says: seq!["error "@ + f.text] }),
        s is Payload && s->len == content.len() ==> {
            let m = advance(o, s, EventView::Payload(content));
            &&& m.state is Exited <==> is_sensitive(content) && !s->sensitive_ok
            &&& scan::findings(content).len() <= m.says.len()
            &&& forall|i: int|
                0 <= i < scan::findings(content).len() ==> #[trigger] m.says[i] == "finding "@
                    + scan::findings(content)[i].describe()
            &&& m.state is Exited ==> m.says.len() == scan::findings(content).len() + 1
                && m.says.last() == "error "@ + "sensitive constructs need explicit confirmation"@
            &&& !(m.state is Exited) ==> m.says.len() == scan::findings(content).len()
        },
{
    reveal_strlit("apply");
    reveal_strlit("delete");
    reveal_strlit("");
    assert("apply"@.len() != "delete"@.len());
    assert(!names::is_valid_name(Seq::empty()));
}

// ---------------------------------------------------------------------------
// keyd itself
// ---------------------------------------------------------------------------

/// The config any keyd able to validate at all must accept.
pub fn known_good() -> (r: String)
    ensures
        r@ == "[ids]\n*\n[main]\n"@,
{
    strings::copy("[ids]\n*\n[main]\n")
}

/// The root-owned locations keyd installs to, in the order they are tried.
pub open spec fn keyd_paths() -> Seq<Seq<char>> {
    seq!["/usr/bin/keyd"@, "/usr/local/bin/keyd"@, "/usr/sbin/keyd"@]
}

/// The root-owned locations keyd installs to. Never a lookup in a search path.
pub fn keyd_locations() -> (r: Vec<String>)
    ensures
        text::texts(r@) == keyd_paths(),
{
    let mut r: Vec<String> = Vec::new();
    r.push(strings::copy("/usr/bin/keyd"));
    r.push(strings::copy("/usr/local/bin/keyd"));
    r.push(strings::copy("/usr/sbin/keyd"));
    assert(text::texts(r@) =~= keyd_paths());
    r
}

/// `r` is the installed keyd: the first location of which `present` says that it exists.
pub open spec fn found_keyd(r: Option<Seq<char>>, present: Seq<bool>) -> bool {
    match r {
        Some(path) => exists|i: int|
            0 <= i < 3 && i < present.len() && #[trigger] present[i] && path == keyd_paths()[i]
                && forall|j: int| 0 <= j < i ==> !#[trigger] present[j],
        None => forall|i: int| 0 <= i < 3 && i < present.len() ==> !#[trigger] present[i],
    }
}

/// The installed keyd: the first location of which `present` says that it exists.
pub fn keyd_bin(present: &Vec<bool>) -> (r: Option<String>)
    ensures
        found_keyd(text::opt(r), present@),
{
    let paths = keyd_locations();
    assert(text::texts(paths@).len() == 3);
    let mut i: usize = 0;
    while i < paths.len() && i < present.len()
        invariant
            i <= 3,
            paths@.len() == 3,
            text::texts(paths@) == keyd_paths(),
            i <= present@.len(),
            forall|j: int| 0 <= j < i ==> !#[trigger] present@[j],
        decreases paths.len() - i,
    {
        assert(keyd_paths()[i as int] == paths@[i as int]@);
        if present[i] {
            return Some(strings::copy(paths[i].as_str()));
        }
        i = i + 1;
    }
    None
}

/// A rejection by `keyd check`: what it printed as errors, or its other output where
/// there were none, on one line.
pub open spec fn rejected(err: Seq<char>, out: Seq<char>) -> FaultView {
    let detail = if text::trim(err).len() == 0 {
        out
    } else {
        err
    };
    FaultView {
        kind: FaultKind::Other,
        text: "keyd check rejected the config: "@ + text::replace_char(
            text::trim(detail),
            '\n',
            " | "@,
        ),
    }
}

/// A rejection by `keyd check`, from what it printed.
pub fn rejection(err: &str, out: &str) -> (r: Fault)
    ensures
        r@ == rejected(err@, out@),
{
    let trimmed = strings::trim(err);
    let detail = if trimmed.as_str().is_empty() {
        strings::trim(out)
    } else {
        trimmed
    };
    let one = strings::replace_char(detail.as_str(), '\n', " | ");
    Fault {
        kind: FaultKind::Other,
        text: strings::cat("keyd check rejected the config: ", one.as_str()),
    }
}

/// The view of an optional failure.
pub open spec fn fault_opt(r: Option<Fault>) -> Option<FaultView> {
    match r {
        Some(f) => Some(f@),
        None => None,
    }
}

/// What `keyd check` says of a file, from how it ended and what it printed.
pub open spec fn check_outcome(success: bool, err: Seq<char>, out: Seq<char>) -> Option<FaultView> {
    if success {
        None
    } else {
        Some(rejected(err, out))
    }
}

/// What `keyd check` says of the file it was given, from how it ended.
pub fn keyd_check(success: bool, stderr: &[u8], stdout: &[u8]) -> (r: Option<Fault>)
    ensures
        fault_opt(r) == check_outcome(
            success,
            strings::lossy_text(stderr@),
            strings::lossy_text(stdout@),
        ),
{
    if success {
        return None;
    }
    let err = strings::from_utf8_lossy(stderr);
    let out = strings::from_utf8_lossy(stdout);
    Some(rejection(err.as_str(), out.as_str()))
}

/// A failed reload, from what it printed.
pub open spec fn reload_failed(err: Seq<char>) -> FaultView {
    FaultView { kind: FaultKind::Other, text: text::trim(err) }
}

/// What `keyd reload` says, from how it ended and what it printed.
pub open spec fn reload_outcome(success: bool, err: Seq<char>) -> Option<FaultView> {
    if success {
        None
    } else {
        Some(reload_failed(err))
    }
}

/// A failed reload, from what it printed.
pub fn reload_fault(err: &str) -> (r: Fault)
    ensures
        r@ == reload_failed(err@),
{
    Fault { kind: FaultKind::Other, text: strings::trim(err) }
}

/// What `keyd reload` says, from how it ended.
pub fn keyd_reload(success: bool, stderr: &[u8]) -> (r: Option<Fault>)
    ensures
        fault_opt(r) == reload_outcome(success, strings::lossy_text(stderr@)),
{
    if success {
        return None;
    }
    let err = strings::from_utf8_lossy(stderr);
    Some(reload_fault(err.as_str()))
}

/// keyd is looked for where root installs it, in the order of the places, and nowhere else.
pub proof fn the_first_keyd_is_run(r: Option<Seq<char>>, present: Seq<bool>)
    requires
        present.len() == 3,
        found_keyd(r, present),
    ensures
        present[0] ==> r == Some("/usr/bin/keyd"@),
        !present[0] && present[1] ==> r == Some("/usr/local/bin/keyd"@),
        !present[0] && !present[1] && present[2] ==> r == Some("/usr/sbin/keyd"@),
        !present[0] && !present[1] && !present[2] ==> r is None,
{
}

/// A check passes exactly where keyd says so. Where it does not, what keyd printed is told on
/// one line: its errors, or where there are none its other output.
pub proof fn a_rejection_is_told_on_one_line(err: Seq<char>, out: Seq<char>)
    requires
        !text::trim(err).contains('\n'),
        !text::trim(out).contains('\n'),
    ensures
        check_outcome(true, err, out) is None,
        check_outcome(false, err, out) is Some,
        text::trim(err).len() > 0 ==> check_outcome(false, err, out)->0.text
            == "keyd check rejected the config: "@ + text::trim(err),
        text::trim(err).len() == 0 ==> check_outcome(false, err, out)->0.text
            == "keyd check rejected the config: "@ + text::trim(out),
        reload_outcome(true, err) is None,
        reload_outcome(false, err) is Some && reload_outcome(false, err)->0.text == text::trim(err),
{
    text::a_replacement_goes_by_character(text::trim(err), Seq::empty(), '\n', " | "@);
    text::a_replacement_goes_by_character(text::trim(out), Seq::empty(), '\n', " | "@);
}

/// What is told of a rejection never has a newline in it.
pub proof fn a_rejection_has_no_newline(err: Seq<char>, out: Seq<char>)
    ensures
        !rejected(err, out).text.contains('\n'),
{
    let detail = if text::trim(err).len() == 0 {
        out
    } else {
        err
    };
    let lead = "keyd check rejected the config: "@;
    let told = text::replace_char(text::trim(detail), '\n', " | "@);
    reveal_strlit("keyd check rejected the config: ");
    reveal_strlit(" | ");
    text::a_replaced_character_is_gone(text::trim(detail), '\n', " | "@);
    if (lead + told).contains('\n') {
        let i = choose|i: int| 0 <= i < (lead + told).len() && (lead + told)[i] == '\n';
        if i >= lead.len() {
            assert(told[i - lead.len()] == '\n');
            assert(told.contains('\n'));
        }
    }
}

/// A window is as long as it was asked to be, between five seconds and two minutes; the last
/// of several flags counts, and what is no number of seconds is refused, as is any flag that
/// is not known.
pub proof fn the_window_is_as_long_as_asked(
    secs: nat,
    rest: Seq<Seq<char>>,
    debug: bool,
    o: OptsView,
    flag: Seq<char>,
    word: Seq<char>,
)
    requires
        secs <= u64::MAX,
    ensures
        opts_from(Seq::empty(), debug, o) == Ok::<OptsView, Seq<char>>(o),
        5 <= secs <= 120 ==> opts_from(seq!["--timeout"@, text::decimal(secs)] + rest, debug, o)
            == opts_from(rest, debug, OptsView { timeout: secs, ..o }),
        secs < 5 ==> opts_from(seq!["--timeout"@, text::decimal(secs)] + rest, debug, o)
            == opts_from(rest, debug, OptsView { timeout: 5, ..o }),
        secs > 120 ==> opts_from(seq!["--timeout"@, text::decimal(secs)] + rest, debug, o)
            == opts_from(rest, debug, OptsView { timeout: 120, ..o }),
        opts_from(seq!["--timeout"@], debug, o) is Err,
        text::parse_number(word, 10, u64::MAX as nat) is None ==> opts_from(
            seq!["--timeout"@, word] + rest,
            debug,
            o,
        ) is Err,
        flag != "--timeout"@ && flag != "--dev-dir"@ && flag != "--dev-no-reload"@ ==> opts_from(
            seq![flag] + rest,
            debug,
            o,
        ) == Err::<OptsView, Seq<char>>("unknown flag "@ + flag),
        opts_from(seq!["--dev-dir"@, word] + rest, true, o) == opts_from(
            rest,
            true,
            OptsView { dir: word, ..o },
        ),
        opts_from(seq!["--dev-no-reload"@] + rest, true, o) == opts_from(
            rest,
            true,
            OptsView { reload: false, ..o },
        ),
{
    reveal_strlit("--timeout");
    reveal_strlit("--dev-dir");
    reveal_strlit("--dev-no-reload");
    assert("--timeout"@.len() != "--dev-no-reload"@.len());
    assert("--timeout"@[2] != "--dev-dir"@[2]);
    assert("--dev-dir"@.len() != "--dev-no-reload"@.len());
    text::decimal_parses(secs, u64::MAX as nat);
    let timed = seq!["--timeout"@, text::decimal(secs)] + rest;
    let t1 = timed.subrange(1, timed.len() as int);
    assert(t1 =~= seq![text::decimal(secs)] + rest);
    assert(t1.subrange(1, t1.len() as int) =~= rest);
    let bad = seq!["--timeout"@, word] + rest;
    let b1 = bad.subrange(1, bad.len() as int);
    assert(b1[0] == word);
    let one = seq![flag] + rest;
    assert(one.subrange(1, one.len() as int) =~= rest);
    let dir = seq!["--dev-dir"@, word] + rest;
    let d1 = dir.subrange(1, dir.len() as int);
    assert(d1 =~= seq![word] + rest);
    assert(d1.subrange(1, d1.len() as int) =~= rest);
    let quiet = seq!["--dev-no-reload"@] + rest;
    assert(quiet.subrange(1, quiet.len() as int) =~= rest);
}

/// Without a flag the tool works on keyd's own directory, and keyd is reloaded.
pub proof fn the_tool_works_on_keyds_directory()
    ensures
        default_opts().dir == "/etc/keyd"@,
        default_opts().reload,
        5 <= default_opts().timeout <= 120,
{
}

} // verus!
