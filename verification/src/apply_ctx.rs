//! One-click apply lifecycle: the policy and the state of the user interface around an
//! apply run.
//!
//! The state mirrored into the window, what the next apply will write, the pre-flight
//! gate, and the restore and delete flows that ride the same dead-man's switch. Every
//! terminal transition goes through [`handle_apply_event`].

use crate::applying;
use crate::applying::ApplyEvent;
use crate::applying::ApplyEventView;
use crate::applying::ApplyOp;
use crate::applying::ApplyRequest;
use crate::applying::ApplyRequestView;
use crate::applying::Invocation;
use crate::applying::InvocationView;
use crate::names;
use crate::paths;
use crate::strings;
use crate::text;
use crate::tool;
use vstd::prelude::*;

verus! {

/// The apply lifecycle.
#[derive(Debug, Clone, Copy, PartialEq, Eq, Structural)]
pub enum ApplyState {
    Idle,
    Confirm,
    Auth,
    Countdown,
    Kept,
    Reverted,
    Failed,
    RevertFailed,
}

/// The token of a state.
pub open spec fn token(s: ApplyState) -> Seq<char> {
    match s {
        ApplyState::Idle => "idle"@,
        ApplyState::Confirm => "confirm"@,
        ApplyState::Auth => "auth"@,
        ApplyState::Countdown => "countdown"@,
        ApplyState::Kept => "kept"@,
        ApplyState::Reverted => "reverted"@,
        ApplyState::Failed => "failed"@,
        ApplyState::RevertFailed => "revert-failed"@,
    }
}

/// No two states share a token.
pub proof fn tokens_are_distinct(a: ApplyState, b: ApplyState)
    ensures
        token(a) == token(b) ==> a == b,
{
    reveal_strlit("idle");
    reveal_strlit("confirm");
    reveal_strlit("auth");
    reveal_strlit("countdown");
    reveal_strlit("kept");
    reveal_strlit("reverted");
    reveal_strlit("failed");
    reveal_strlit("revert-failed");
    if token(a) == token(b) {
        assert(token(a).len() == token(b).len());
        assert(token(a)[0] == token(b)[0]);
    }
}

impl ApplyState {
    /// The exact token shown to the window.
    pub fn as_str(self) -> (r: &'static str)
        ensures
            r@ == token(self),
    {
        match self {
            ApplyState::Idle => "idle",
            ApplyState::Confirm => "confirm",
            ApplyState::Auth => "auth",
            ApplyState::Countdown => "countdown",
            ApplyState::Kept => "kept",
            ApplyState::Reverted => "reverted",
            ApplyState::Failed => "failed",
            ApplyState::RevertFailed => "revert-failed",
        }
    }

    /// The state of a token: the one that has it, if any.
    pub fn from_token(s: &str) -> (r: Option<ApplyState>)
        ensures
            match r {
                Some(state) => token(state) == s@,
                None => forall|state: ApplyState| #[trigger] token(state) != s@,
            },
            forall|state: ApplyState| #[trigger] token(state) == s@ ==> r == Some(state),
    {
        proof {
            assert forall|a: ApplyState, b: ApplyState| #[trigger] token(a) == #[trigger] token(
                b,
            ) implies a == b by {
                tokens_are_distinct(a, b);
            }
        }
        if strings::same(s, "idle") {
            assert(token(ApplyState::Idle) == s@);
            Some(ApplyState::Idle)
        } else if strings::same(s, "confirm") {
            assert(token(ApplyState::Confirm) == s@);
            Some(ApplyState::Confirm)
        } else if strings::same(s, "auth") {
            assert(token(ApplyState::Auth) == s@);
            Some(ApplyState::Auth)
        } else if strings::same(s, "countdown") {
            assert(token(ApplyState::Countdown) == s@);
            Some(ApplyState::Countdown)
        } else if strings::same(s, "kept") {
            assert(token(ApplyState::Kept) == s@);
            Some(ApplyState::Kept)
        } else if strings::same(s, "reverted") {
            assert(token(ApplyState::Reverted) == s@);
            Some(ApplyState::Reverted)
        } else if strings::same(s, "failed") {
            assert(token(ApplyState::Failed) == s@);
            Some(ApplyState::Failed)
        } else if strings::same(s, "revert-failed") {
            assert(token(ApplyState::RevertFailed) == s@);
            Some(ApplyState::RevertFailed)
        } else {
            None
        }
    }
}

/// What the next apply will write.
#[derive(Debug)]
pub enum Pending {
    /// The session's own current edits.
    Session,
    /// A backup's bytes.
    Restore(Vec<u8>),
    /// Nothing: the config is deleted, and this is the board to drop once kept.
    Delete(String),
}

pub enum PendingView {
    Session,
    Restore(Seq<u8>),
    Delete(Seq<char>),
}

impl View for Pending {
    type V = PendingView;

    open spec fn view(&self) -> PendingView {
        match *self {
            Pending::Session => PendingView::Session,
            Pending::Restore(b) => PendingView::Restore(b@),
            Pending::Delete(p) => PendingView::Delete(p@),
        }
    }
}

/// Everything about applying that outlives one call.
#[derive(Debug)]
pub struct ApplyUi {
    pub state: ApplyState,
    /// What the panel says.
    pub info: String,
    pub pending: Pending,
    /// A run is in flight.
    pub running: bool,
    /// The countdown dialog is open and its timer runs.
    pub counting: bool,
    /// The next key pressed would be captured.
    pub capture_armed: bool,
    pub backups_open: bool,
}

pub struct ApplyUiView {
    pub state: ApplyState,
    pub info: Seq<char>,
    pub pending: PendingView,
    pub running: bool,
    pub counting: bool,
    pub capture_armed: bool,
    pub backups_open: bool,
}

impl View for ApplyUi {
    type V = ApplyUiView;

    open spec fn view(&self) -> ApplyUiView {
        ApplyUiView {
            state: self.state,
            info: self.info@,
            pending: self.pending@,
            running: self.running,
            counting: self.counting,
            capture_armed: self.capture_armed,
            backups_open: self.backups_open,
        }
    }
}

impl ApplyUi {
    /// Nothing under way.
    pub fn new() -> (r: ApplyUi)
        ensures
            r@ == (ApplyUiView {
                state: ApplyState::Idle,
                info: Seq::empty(),
                pending: PendingView::Session,
                running: false,
                counting: false,
                capture_armed: false,
                backups_open: false,
            }),
    {
        ApplyUi {
            state: ApplyState::Idle,
            info: String::new(),
            pending: Pending::Session,
            running: false,
            counting: false,
            capture_armed: false,
            backups_open: false,
        }
    }
}

/// A run is in flight, or waits for confirmation.
pub open spec fn is_busy(s: ApplyState) -> bool {
    s == ApplyState::Confirm || s == ApplyState::Auth || s == ApplyState::Countdown
}

/// True while an apply is in flight (confirm, auth or countdown).
pub fn apply_busy(s: ApplyState) -> (r: bool)
    ensures
        r == is_busy(s),
{
    match s {
        ApplyState::Confirm => true,
        ApplyState::Auth => true,
        ApplyState::Countdown => true,
        _ => false,
    }
}

/// The panel at its idle baseline.
pub fn reset_apply_ui(ui: ApplyUi) -> (r: ApplyUi)
    ensures
        r@ == (ApplyUiView {
            state: ApplyState::Idle,
            info: Seq::empty(),
            backups_open: false,
            ..ui@
        }),
{
    ApplyUi {
        state: ApplyState::Idle,
        info: String::new(),
        pending: ui.pending,
        running: ui.running,
        counting: ui.counting,
        capture_armed: ui.capture_armed,
        backups_open: false,
    }
}

/// The panel after a live run was torn down: the countdown stops, the run is released, and
/// nothing pending survives into the next session.
pub open spec fn torn_down(ui: ApplyUiView) -> ApplyUiView {
    ApplyUiView { pending: PendingView::Session, running: false, counting: false, ..ui }
}

/// Tear a live run down. Says whether there is a run to revert.
pub fn teardown_apply(ui: ApplyUi) -> (r: (ApplyUi, bool))
    ensures
        r.0@ == torn_down(ui@),
        r.1 == ui.running,
{
    let run = ui.running;
    (
        ApplyUi {
            state: ui.state,
            info: ui.info,
            pending: Pending::Session,
            running: false,
            counting: false,
            capture_armed: ui.capture_armed,
            backups_open: ui.backups_open,
        },
        run,
    )
}

/// What is said of a session-changing action while an apply is in flight.
pub open spec fn not_now() -> Seq<char> {
    "⚠ apply in progress — KEEP or revert first"@
}

/// The banner that refuses a session-changing action while an apply is in flight.
pub fn refuse_if_applying(s: ApplyState) -> (r: Option<String>)
    ensures
        r is Some <==> is_busy(s),
        r is Some ==> r->0@ == not_now(),
{
    if apply_busy(s) {
        Some(strings::copy("⚠ apply in progress — KEEP or revert first"))
    } else {
        None
    }
}

/// One-click availability for the config at a path, and the hint shown where only the
/// tool is missing.
pub open spec fn gate(path: Seq<char>, how: Option<InvocationView>) -> (bool, Seq<char>) {
    match how {
        Some(h) => (paths::target_name(path, h.config_dir()) is Some, Seq::empty()),
        None => (
            false,
            if paths::target_name(path, applying::config_root()) is Some {
                "applying changes directly needs keyd-viz installed (AUR or source) — for now, use 'save draft' and follow its install steps"@
            } else {
                Seq::empty()
            },
        ),
    }
}

/// One-click availability for a session's config, and a hint: the tool must be reachable
/// and the file be `<config-dir>/<name>.conf` with an allow-listed name. The hint names
/// the missing installation only where the file would qualify.
pub fn apply_gate(path: &str, how: &Option<Invocation>) -> (r: (bool, String))
    ensures
        (r.0, r.1@) == gate(path@, applying::invocation_opt(*how)),
{
    match how {
        Some(h) => (paths::target_of(path, h.config_dir()).is_some(), String::new()),
        None => {
            let hint = if paths::target_of(path, applying::prod_config_dir()).is_some() {
                strings::copy(
                    "applying changes directly needs keyd-viz installed (AUR or source) — for now, use 'save draft' and follow its install steps",
                )
            } else {
                String::new()
            };
            (false, hint)
        },
    }
}

// ---------------------------------------------------------------------------
// Launching
// ---------------------------------------------------------------------------

/// The config being edited: where it lives and what it would be written as.
#[derive(Debug)]
pub struct SessionBytes {
    pub path: String,
    pub bytes: Vec<u8>,
}

pub struct SessionBytesView {
    pub path: Seq<char>,
    pub bytes: Seq<u8>,
}

impl View for SessionBytes {
    type V = SessionBytesView;

    open spec fn view(&self) -> SessionBytesView {
        SessionBytesView { path: self.path@, bytes: self.bytes@ }
    }
}

/// An optional session with its view.
pub open spec fn session_opt(s: Option<SessionBytes>) -> Option<SessionBytesView> {
    match s {
        Some(b) => Some(b@),
        None => None,
    }
}

/// An optional request with its view.
pub open spec fn request_opt(r: Option<ApplyRequest>) -> Option<ApplyRequestView> {
    match r {
        Some(q) => Some(q@),
        None => None,
    }
}

/// The panel with a failure in it.
pub open spec fn failing(ui: ApplyUiView, info: Seq<char>) -> ApplyUiView {
    ApplyUiView { state: ApplyState::Failed, info, ..ui }
}

/// What launching an apply does: the pending intent is consumed whatever happens, and a
/// restore writes the backup's bytes in place of the session's.
pub open spec fn launching(
    ui: ApplyUiView,
    how: Option<InvocationView>,
    session: Option<SessionBytesView>,
    sensitive_ok: bool,
) -> (ApplyUiView, Option<ApplyRequestView>) {
    let idle = ApplyUiView { pending: PendingView::Session, ..ui };
    match how {
        None => (
            failing(
                idle,
                "can't apply changes directly right now — keyd-viz isn't fully installed. use 'save draft' instead"@,
            ),
            None,
        ),
        Some(h) => match session {
            None => (idle, None),
            Some(s) => match paths::target_name(s.path, h.config_dir()) {
                None => (
                    failing(idle, "keyd-viz can't apply this config directly anymore"@),
                    None,
                ),
                Some(name) => (
                    ApplyUiView { state: ApplyState::Auth, capture_armed: false, ..idle },
                    Some(
                        ApplyRequestView {
                            name,
                            bytes: match ui.pending {
                                PendingView::Restore(b) => b,
                                _ => s.bytes,
                            },
                            sensitive_ok,
                            op: ApplyOp::Apply,
                            how: h,
                        },
                    ),
                ),
            },
        },
    }
}

impl ApplyUi {
    /// The panel with a failure in it and nothing pending.
    fn failed(self, info: &str) -> (r: ApplyUi)
        ensures
            r@ == failing(ApplyUiView { pending: PendingView::Session, ..self@ }, info@),
    {
        ApplyUi {
            state: ApplyState::Failed,
            info: strings::copy(info),
            pending: Pending::Session,
            running: self.running,
            counting: self.counting,
            capture_armed: self.capture_armed,
            backups_open: self.backups_open,
        }
    }

    /// The panel with a failure in it, what is pending left as it is.
    fn failed_still(self, info: &str) -> (r: ApplyUi)
        ensures
            r@ == failing(self@, info@),
    {
        ApplyUi {
            state: ApplyState::Failed,
            info: strings::copy(info),
            pending: self.pending,
            running: self.running,
            counting: self.counting,
            capture_armed: self.capture_armed,
            backups_open: self.backups_open,
        }
    }
}

/// Launch an apply of what is pending. The request, where there is one, is to be sent to
/// the tool; [`started`] takes in whether that worked.
pub fn launch_apply(
    ui: ApplyUi,
    how: Option<Invocation>,
    session: Option<SessionBytes>,
    sensitive_ok: bool,
) -> (r: (ApplyUi, Option<ApplyRequest>))
    ensures
        (r.0@, request_opt(r.1)) == launching(
            ui@,
            applying::invocation_opt(how),
            session_opt(session),
            sensitive_ok,
        ),
{
    match how {
        None => (
            ui.failed(
                "can't apply changes directly right now — keyd-viz isn't fully installed. use 'save draft' instead",
            ),
            None,
        ),
        Some(h) => match session {
            None => (
                ApplyUi {
                    state: ui.state,
                    info: ui.info,
                    pending: Pending::Session,
                    running: ui.running,
                    counting: ui.counting,
                    capture_armed: ui.capture_armed,
                    backups_open: ui.backups_open,
                },
                None,
            ),
            Some(s) => match paths::target_of(s.path.as_str(), h.config_dir()) {
                None => (ui.failed("keyd-viz can't apply this config directly anymore"), None),
                Some(name) => {
                    let bytes = match ui.pending {
                        Pending::Restore(b) => b,
                        _ => s.bytes,
                    };
                    (
                        ApplyUi {
                            state: ApplyState::Auth,
                            info: ui.info,
                            pending: Pending::Session,
                            running: ui.running,
                            counting: ui.counting,
                            capture_armed: false,
                            backups_open: ui.backups_open,
                        },
                        Some(ApplyRequest { name, bytes, sensitive_ok, op: ApplyOp::Apply, how: h }),
                    )
                },
            },
        },
    }
}

/// What launching a delete does.
pub open spec fn launching_delete(
    ui: ApplyUiView,
    how: Option<InvocationView>,
    name: Seq<char>,
    path: Seq<char>,
) -> (ApplyUiView, Option<ApplyRequestView>) {
    match how {
        None => (
            failing(
                ui,
                "can't delete this config directly right now — keyd-viz isn't fully installed. remove the file manually"@,
            ),
            None,
        ),
        Some(h) => (
            ApplyUiView {
                state: ApplyState::Auth,
                capture_armed: false,
                pending: PendingView::Delete(path),
                ..ui
            },
            Some(
                ApplyRequestView {
                    name,
                    bytes: Seq::empty(),
                    sensitive_ok: false,
                    op: ApplyOp::Delete,
                    how: h,
                },
            ),
        ),
    }
}

/// Launch the delete of the config `name` at `path`, through the same authentication and
/// countdown as an apply.
pub fn launch_delete(ui: ApplyUi, how: Option<Invocation>, name: &str, path: &str) -> (r: (
    ApplyUi,
    Option<ApplyRequest>,
))
    ensures
        (r.0@, request_opt(r.1)) == launching_delete(
            ui@,
            applying::invocation_opt(how),
            name@,
            path@,
        ),
{
    match how {
        None => (
            ui.failed_still(
                "can't delete this config directly right now — keyd-viz isn't fully installed. remove the file manually",
            ),
            None,
        ),
        Some(h) => {
            let bytes: Vec<u8> = Vec::new();
            (
                ApplyUi {
                    state: ApplyState::Auth,
                    info: ui.info,
                    pending: Pending::Delete(strings::copy(path)),
                    running: ui.running,
                    counting: ui.counting,
                    capture_armed: false,
                    backups_open: ui.backups_open,
                },
                Some(
                    ApplyRequest {
                        name: strings::copy(name),
                        bytes,
                        sensitive_ok: false,
                        op: ApplyOp::Delete,
                        how: h,
                    },
                ),
            )
        },
    }
}

/// The panel after the tool was started, or failed to start for the reason given.
pub open spec fn tool_started(ui: ApplyUiView, error: Option<Seq<char>>) -> ApplyUiView {
    match error {
        None => ApplyUiView { running: true, ..ui },
        Some(e) => failing(
            ApplyUiView { pending: PendingView::Session, ..ui },
            "couldn't start applying: "@ + e,
        ),
    }
}

/// Take in whether the tool could be started; `error` is why not.
pub fn started(ui: ApplyUi, error: Option<String>) -> (r: ApplyUi)
    ensures
        r@ == tool_started(ui@, text::opt(error)),
{
    match error {
        None => ApplyUi {
            state: ui.state,
            info: ui.info,
            pending: ui.pending,
            running: true,
            counting: ui.counting,
            capture_armed: ui.capture_armed,
            backups_open: ui.backups_open,
        },
        Some(e) => ui.failed(strings::cat("couldn't start applying: ", e.as_str()).as_str()),
    }
}

/// An armed restore never rides a later apply: whatever comes of a launch, nothing is
/// pending afterwards, and a request is made only from the state that shows it.
pub proof fn launch_consumes_the_intent(
    ui: ApplyUiView,
    how: Option<InvocationView>,
    session: Option<SessionBytesView>,
    sensitive_ok: bool,
)
    ensures
        launching(ui, how, session, sensitive_ok).0.pending == PendingView::Session,
        launching(ui, how, session, sensitive_ok).1 is Some ==> launching(
            ui,
            how,
            session,
            sensitive_ok,
        ).0.state == ApplyState::Auth,
        launching(ui, how, session, sensitive_ok).1 is Some ==> names::is_valid_name(
            launching(ui, how, session, sensitive_ok).1->0.name,
        ) && launching(ui, how, session, sensitive_ok).1->0.sensitive_ok == sensitive_ok,
{
}

/// A launch sends what is pending to where the session lives: a request is made exactly
/// where the tool can be reached and the session's file is a config of its directory. It
/// carries the bytes of the armed restore, or else those of the session, under the name of
/// that file; the panel then shows the authentication and captures nothing.
pub proof fn a_launch_sends_what_is_pending(
    ui: ApplyUiView,
    how: Option<InvocationView>,
    session: Option<SessionBytesView>,
    sensitive_ok: bool,
)
    ensures
        ({
            let (next, req) = launching(ui, how, session, sensitive_ok);
            &&& req is Some <==> how is Some && session is Some && paths::target_name(
                session->0.path,
                how->0.config_dir(),
            ) is Some
            &&& req is Some ==> {
                &&& Some(req->0.name) == paths::target_name(session->0.path, how->0.config_dir())
                &&& ui.pending matches PendingView::Restore(b) ==> req->0.bytes == b
                &&& !(ui.pending is Restore) ==> req->0.bytes == session->0.bytes
                &&& req->0.op == ApplyOp::Apply
                &&& req->0.how == how->0
                &&& req->0.sensitive_ok == sensitive_ok
                &&& next.state == ApplyState::Auth
                &&& !next.capture_armed
                &&& next.info == ui.info
            }
            &&& req is None && (how is None || session is Some) ==> next.state
                == ApplyState::Failed && next.info.len() > 0
            &&& req is None && how is Some && session is None ==> next.state == ui.state
                && next.info == ui.info
            &&& next.running == ui.running
        }),
{
    reveal_strlit(
        "can't apply changes directly right now — keyd-viz isn't fully installed. use 'save draft' instead",
    );
    reveal_strlit("keyd-viz can't apply this config directly anymore");
}

/// A config in the directory of the tool can be applied whatever else: a launch for it makes
/// a request under its own name.
pub proof fn a_config_of_the_directory_can_be_applied(
    ui: ApplyUiView,
    how: InvocationView,
    name: Seq<char>,
    bytes: Seq<u8>,
    sensitive_ok: bool,
)
    requires
        names::is_valid_name(name),
    ensures
        ({
            let path = paths::join(how.config_dir(), name + ".conf"@);
            let req = launching(
                ui,
                Some(how),
                Some(SessionBytesView { path, bytes }),
                sensitive_ok,
            ).1;
            &&& gate(path, Some(how)) == (true, Seq::<char>::empty())
            &&& req is Some && req->0.name == name
            &&& !(ui.pending is Restore) ==> req->0.bytes == bytes
        }),
{
    paths::a_config_of_the_directory_is_a_target(how.config_dir(), name);
}

/// One-click apply is offered exactly for a config of the tool's directory, with no hint
/// then; without the tool there is a hint exactly where the file would qualify.
pub proof fn apply_is_offered_where_it_works(path: Seq<char>, how: Option<InvocationView>)
    ensures
        gate(path, how).0 <==> how is Some && paths::target_name(path, how->0.config_dir())
            is Some,
        gate(path, how).1.len() > 0 <==> how is None && paths::target_name(
            path,
            applying::config_root(),
        ) is Some,
{
    reveal_strlit(
        "applying changes directly needs keyd-viz installed (AUR or source) — for now, use 'save draft' and follow its install steps",
    );
}

/// A delete is launched wherever the tool can be reached: it names the config, carries
/// nothing and acknowledges nothing, and the board to drop is that of the path. Otherwise it
/// fails with nothing sent and what was pending left as it was.
pub proof fn a_delete_sends_only_the_name(
    ui: ApplyUiView,
    how: Option<InvocationView>,
    name: Seq<char>,
    path: Seq<char>,
)
    ensures
        ({
            let (next, req) = launching_delete(ui, how, name, path);
            &&& req is Some <==> how is Some
            &&& req is Some ==> {
                &&& req->0.name == name
                &&& req->0.bytes.len() == 0
                &&& !req->0.sensitive_ok
                &&& req->0.op == ApplyOp::Delete
                &&& req->0.how == how->0
                &&& next.pending == PendingView::Delete(path)
                &&& next.state == ApplyState::Auth
                &&& !next.capture_armed
            }
            &&& req is None ==> next.state == ApplyState::Failed && next.pending == ui.pending
        }),
{
}

// ---------------------------------------------------------------------------
// Pre-flight
// ---------------------------------------------------------------------------

/// One warning line for each note.
pub open spec fn warn_lines(notes: Seq<Seq<char>>) -> Seq<char>
    decreases notes.len(),
{
    if notes.len() == 0 {
        Seq::empty()
    } else {
        warn_lines(notes.drop_last()) + "⚠ "@ + notes.last() + "\n"@
    }
}

/// Append one warning line for each note.
fn push_warnings(info: &mut String, notes: &Vec<String>)
    ensures
        final(info)@ == old(info)@ + warn_lines(text::texts(notes@)),
{
    let ghost before = info@;
    let ghost all = text::texts(notes@);
    let mut i: usize = 0;
    assert(info@ =~= before + warn_lines(all.subrange(0, 0)));
    while i < notes.len()
        invariant
            i <= notes@.len(),
            all == text::texts(notes@),
            info@ == before + warn_lines(all.subrange(0, i as int)),
        decreases notes.len() - i,
    {
        let ghost next = all.subrange(0, i + 1);
        assert(next.drop_last() =~= all.subrange(0, i as int));
        assert(next.last() == notes@[i as int]@);
        info.append("⚠ ");
        info.append(notes[i].as_str());
        info.append("\n");
        assert(info@ =~= before + warn_lines(next));
        i = i + 1;
    }
    assert(all.subrange(0, i as int) =~= all);
}

/// What the pre-flight of an apply found out, for the panel.
#[derive(Debug)]
pub struct Review {
    /// What the findings of the scan amount to, in words.
    pub notes: Vec<String>,
    /// What was found inside included files, in words.
    pub included: Vec<String>,
    /// The file changed on disk since the session opened.
    pub stale: Option<String>,
    /// What changed.
    pub diff: String,
}

pub struct ReviewView {
    pub notes: Seq<Seq<char>>,
    pub included: Seq<Seq<char>>,
    pub stale: Option<Seq<char>>,
    pub diff: Seq<char>,
}

impl View for Review {
    type V = ReviewView;

    open spec fn view(&self) -> ReviewView {
        ReviewView {
            notes: text::texts(self.notes@),
            included: text::texts(self.included@),
            stale: text::opt(self.stale),
            diff: self.diff@,
        }
    }
}

/// The summary shown through the countdown: warnings first, then what changed.
pub open spec fn summary_of(r: ReviewView) -> Seq<char> {
    let warnings = warn_lines(r.notes) + warn_lines(r.included) + (match r.stale {
        Some(w) => "⚠ "@ + w + "\n"@,
        None => Seq::empty(),
    });
    if r.diff.len() == 0 {
        warnings
    } else if warnings.len() == 0 {
        text::trim_end(r.diff)
    } else {
        warnings + "\n"@ + text::trim_end(r.diff)
    }
}

/// The summary shown through the countdown.
pub fn summary(r: &Review) -> (s: String)
    ensures
        s@ == summary_of(r@),
{
    let mut info = String::new();
    push_warnings(&mut info, &r.notes);
    push_warnings(&mut info, &r.included);
    let ghost two = warn_lines(r@.notes) + warn_lines(r@.included);
    assert(info@ =~= two);
    if let Some(w) = &r.stale {
        info.append("⚠ ");
        info.append(w.as_str());
        info.append("\n");
        assert(info@ =~= two + ("⚠ "@ + w@ + "\n"@));
    } else {
        assert(info@ =~= two + Seq::<char>::empty());
    }
    if !r.diff.as_str().is_empty() {
        let ghost warnings = info@;
        if !info.as_str().is_empty() {
            info.append("\n");
        }
        info.append(strings::trim_end(r.diff.as_str()).as_str());
        assert(warnings.len() == 0 ==> info@ =~= text::trim_end(r@.diff));
    }
    info
}

/// Where a pre-flight leads.
#[derive(Debug, Clone, Copy, PartialEq, Eq, Structural)]
pub enum Preflight {
    /// Nowhere: nothing to apply, or it failed, or it waits for confirmation.
    Stop,
    /// Launch the apply.
    Launch,
}

/// What starting an apply does. Nothing happens unless the panel is idle and something
/// changed; a config too large or rejected by keyd fails before any authentication; one
/// that holds sensitive constructs, inline or in an include, waits for confirmation.
pub open spec fn starting(
    ui: ApplyUiView,
    dirty: bool,
    bytes: Option<Seq<u8>>,
    rejected: Option<Seq<char>>,
    review: ReviewView,
) -> (ApplyUiView, Preflight) {
    let idle = ApplyUiView { pending: PendingView::Session, ..ui };
    if ui.state != ApplyState::Idle || !dirty {
        (ui, Preflight::Stop)
    } else {
        match bytes {
            None => (idle, Preflight::Stop),
            Some(b) => if b.len() > names::MAX_CONFIG_BYTES {
                (
                    failing(
                        idle,
                        "this config is too large to apply — "@ + text::decimal(b.len())
                            + " bytes, and the limit is "@ + text::decimal(
                            names::MAX_CONFIG_BYTES as nat,
                        ) + ". remove some bindings and try again."@,
                    ),
                    Preflight::Stop,
                )
            } else {
                match rejected {
                    Some(e) => (
                        failing(
                            idle,
                            "this config has an error and can't be applied — fix it first:\n"@ + e,
                        ),
                        Preflight::Stop,
                    ),
                    None => {
                        let shown = ApplyUiView { info: summary_of(review), ..idle };
                        if tool::is_sensitive(b) || review.included.len() > 0 {
                            (
                                ApplyUiView { state: ApplyState::Confirm, ..shown },
                                Preflight::Stop,
                            )
                        } else {
                            (shown, Preflight::Launch)
                        }
                    },
                }
            },
        }
    }
}

/// Start an apply of the session's edits. `bytes` is what would be written, `rejected`
/// what `keyd check` has against it, and `review` what the pre-flight found.
pub fn start_apply(
    ui: ApplyUi,
    dirty: bool,
    bytes: Option<Vec<u8>>,
    rejected: Option<String>,
    review: &Review,
) -> (r: (ApplyUi, Preflight))
    ensures
        (r.0@, r.1) == starting(
            ui@,
            dirty,
            match bytes {
                Some(b) => Some(b@),
                None => None,
            },
            text::opt(rejected),
            review@,
        ),
{
    if ui.state != ApplyState::Idle || !dirty {
        return (ui, Preflight::Stop);
    }
    match bytes {
        None => (
            ApplyUi {
                state: ui.state,
                info: ui.info,
                pending: Pending::Session,
                running: ui.running,
                counting: ui.counting,
                capture_armed: ui.capture_armed,
                backups_open: ui.backups_open,
            },
            Preflight::Stop,
        ),
        Some(b) => {
            if b.len() > names::MAX_CONFIG_BYTES {
                let mut info = strings::copy("this config is too large to apply — ");
                info.append(strings::decimal(b.len() as u64).as_str());
                info.append(" bytes, and the limit is ");
                info.append(strings::decimal(names::MAX_CONFIG_BYTES as u64).as_str());
                info.append(". remove some bindings and try again.");
                return (ui.failed(info.as_str()), Preflight::Stop);
            }
            if let Some(e) = rejected {
                let info = strings::cat(
                    "this config has an error and can't be applied — fix it first:\n",
                    e.as_str(),
                );
                return (ui.failed(info.as_str()), Preflight::Stop);
            }
            let confirm = tool::sensitive(&b) || review.included.len() > 0;
            let state = if confirm { ApplyState::Confirm } else { ApplyState::Idle };
            let next = if confirm { Preflight::Stop } else { Preflight::Launch };
            assert(text::texts(review.included@).len() == review.included@.len());
            (
                ApplyUi {
                    state,
                    info: summary(review),
                    pending: Pending::Session,
                    running: ui.running,
                    counting: ui.counting,
                    capture_armed: ui.capture_armed,
                    backups_open: ui.backups_open,
                },
                next,
            )
        },
    }
}

/// The click confirms something: a confirmation was asked for.
pub open spec fn confirms(s: ApplyState) -> bool {
    s == ApplyState::Confirm
}

/// Whether the click that acknowledges sensitive constructs launches the apply: only
/// where it was asked for.
pub fn confirm_apply(s: ApplyState) -> (r: bool)
    ensures
        r == confirms(s),
{
    match s {
        ApplyState::Confirm => true,
        _ => false,
    }
}

/// What backing out does. While authentication runs, only this end is closed: the run is
/// not over until the privileged side says how it ended.
pub open spec fn cancelling(ui: ApplyUiView) -> (ApplyUiView, bool) {
    match ui.state {
        ApplyState::Auth => (
            ApplyUiView { info: "cancelling — finishing up…"@, ..ui },
            true,
        ),
        ApplyState::Idle => (ui, false),
        ApplyState::Countdown => (ui, false),
        _ => (
            ApplyUiView {
                state: ApplyState::Idle,
                info: Seq::empty(),
                pending: PendingView::Session,
                ..ui
            },
            false,
        ),
    }
}

/// Back out, or dismiss an outcome. Says whether to revert the run.
pub fn cancel_apply(ui: ApplyUi) -> (r: (ApplyUi, bool))
    ensures
        (r.0@, r.1) == cancelling(ui@),
{
    match ui.state {
        ApplyState::Auth => (
            ApplyUi {
                state: ui.state,
                info: strings::copy("cancelling — finishing up…"),
                pending: ui.pending,
                running: ui.running,
                counting: ui.counting,
                capture_armed: ui.capture_armed,
                backups_open: ui.backups_open,
            },
            true,
        ),
        ApplyState::Idle => (ui, false),
        ApplyState::Countdown => (ui, false),
        _ => (
            ApplyUi {
                state: ApplyState::Idle,
                info: String::new(),
                pending: Pending::Session,
                running: ui.running,
                counting: ui.counting,
                capture_armed: ui.capture_armed,
                backups_open: ui.backups_open,
            },
            false,
        ),
    }
}

/// What deleting the config being edited comes to.
#[derive(Debug)]
pub enum DeletePlan {
    /// Nothing is done.
    Nothing,
    /// The config was never on disk: leave the session as a discard does.
    Discard,
    /// It cannot be reached by the tool.
    Unreachable,
    /// Launch the delete of this name.
    Launch(String),
}

pub enum DeletePlanView {
    Nothing,
    Discard,
    Unreachable,
    Launch(Seq<char>),
}

impl View for DeletePlan {
    type V = DeletePlanView;

    open spec fn view(&self) -> DeletePlanView {
        match *self {
            DeletePlan::Nothing => DeletePlanView::Nothing,
            DeletePlan::Discard => DeletePlanView::Discard,
            DeletePlan::Unreachable => DeletePlanView::Unreachable,
            DeletePlan::Launch(n) => DeletePlanView::Launch(n@),
        }
    }
}

/// What deleting the config at `path` comes to.
pub open spec fn delete_plan(
    s: ApplyState,
    path: Option<Seq<char>>,
    is_new: bool,
    how: Option<InvocationView>,
) -> DeletePlanView {
    if is_busy(s) || path is None {
        DeletePlanView::Nothing
    } else if is_new {
        DeletePlanView::Discard
    } else {
        match how {
            None => DeletePlanView::Unreachable,
            Some(h) => match paths::target_name(path->0, h.config_dir()) {
                None => DeletePlanView::Unreachable,
                Some(name) => DeletePlanView::Launch(name),
            },
        }
    }
}

/// Decide what deleting the config being edited comes to; an unreachable one is said so
/// in the panel.
pub fn delete_config(
    ui: ApplyUi,
    path: &Option<String>,
    is_new: bool,
    how: &Option<Invocation>,
) -> (r: (ApplyUi, DeletePlan))
    ensures
        r.1@ == delete_plan(ui.state, text::opt(*path), is_new, applying::invocation_opt(*how)),
        r.0@ == (if r.1@ is Unreachable {
            failing(
                ui@,
                "this config lives outside keyd's config folder, so keyd-viz can't remove it for you — delete the file manually"@,
            )
        } else {
            ui@
        }),
{
    if apply_busy(ui.state) {
        return (ui, DeletePlan::Nothing);
    }
    match path {
        None => (ui, DeletePlan::Nothing),
        Some(p) => {
            if is_new {
                return (ui, DeletePlan::Discard);
            }
            let target = match how {
                None => None,
                Some(h) => paths::target_of(p.as_str(), h.config_dir()),
            };
            match target {
                None => (
                    ui.failed_still(
                        "this config lives outside keyd's config folder, so keyd-viz can't remove it for you — delete the file manually",
                    ),
                    DeletePlan::Unreachable,
                ),
                Some(name) => (ui, DeletePlan::Launch(name)),
            }
        },
    }
}

// ---------------------------------------------------------------------------
// Restoring
// ---------------------------------------------------------------------------

/// What is known of a backup when it is to be restored.
#[derive(Debug)]
pub struct BackupRead {
    /// Its bytes, or why they could not be read.
    pub bytes: Result<Vec<u8>, String>,
    /// What `keyd check` has against it.
    pub rejected: Option<String>,
    /// How old it is, and its date, in words.
    pub age: String,
    pub date: String,
    /// What the findings of the scan amount to, in words.
    pub notes: Vec<String>,
}

/// The bytes of a backup, or why not, with their views.
pub open spec fn read_view(r: Result<Vec<u8>, String>) -> Result<Seq<u8>, Seq<char>> {
    match r {
        Ok(b) => Ok(b@),
        Err(e) => Err(e@),
    }
}

/// What restoring a backup does: it is pre-flighted like an apply, and then arms the
/// restore and takes the same way.
pub open spec fn restoring(
    ui: ApplyUiView,
    bytes: Result<Seq<u8>, Seq<char>>,
    rejected: Option<Seq<char>>,
    age: Seq<char>,
    date: Seq<char>,
    notes: Seq<Seq<char>>,
) -> (ApplyUiView, Preflight) {
    match bytes {
        Err(e) => (failing(ui, "couldn't read the backup file: "@ + e), Preflight::Stop),
        Ok(b) => if b.len() > names::MAX_CONFIG_BYTES {
            (failing(ui, "this backup is too large to restore"@), Preflight::Stop)
        } else if !vstd::utf8::valid_utf8(b) {
            (failing(ui, "this backup file is corrupt (not valid text)"@), Preflight::Stop)
        } else {
            match rejected {
                Some(e) => (
                    failing(
                        ui,
                        "this backup is no longer valid for your keyd and can't be restored:\n"@
                            + e,
                    ),
                    Preflight::Stop,
                ),
                None => {
                    let armed = ApplyUiView {
                        pending: PendingView::Restore(b),
                        info: "Restoring the backup from "@ + age + " ("@ + date
                            + "). The current config is backed up first, so this is undoable.\n"@
                            + warn_lines(notes),
                        ..ui
                    };
                    if tool::is_sensitive(b) {
                        (ApplyUiView { state: ApplyState::Confirm, ..armed }, Preflight::Stop)
                    } else {
                        (armed, Preflight::Launch)
                    }
                },
            }
        },
    }
}

/// A backup in the restore panel.
#[derive(Debug, PartialEq, Eq)]
pub struct Backup {
    pub path: String,
    pub stamp: u64,
    pub size: u64,
}

pub struct BackupView {
    pub path: Seq<char>,
    pub stamp: nat,
    pub size: nat,
}

impl View for Backup {
    type V = BackupView;

    open spec fn view(&self) -> BackupView {
        BackupView { path: self.path@, stamp: self.stamp as nat, size: self.size as nat }
    }
}

/// The backup that was picked in the panel, if the index is that of one.
pub open spec fn picked_backup(backups: Seq<BackupView>, idx: int) -> Option<BackupView> {
    if 0 <= idx < backups.len() {
        Some(backups[idx])
    } else {
        None
    }
}

/// The backup that was picked in the panel, if the index is that of one.
pub fn pick_backup(backups: &Vec<Backup>, idx: i32) -> (r: Option<Backup>)
    ensures
        (match r {
            Some(b) => Some(b@),
            None => None,
        }) == picked_backup(text::views(backups@), idx as int),
{
    if idx < 0 || idx as usize >= backups.len() {
        return None;
    }
    let b = &backups[idx as usize];
    Some(Backup { path: strings::copy(b.path.as_str()), stamp: b.stamp, size: b.size })
}

/// Restore the backup that was picked: check it as an apply is checked, arm it, and say
/// whether to launch. Where none was picked nothing changes.
pub fn restore_backup(ui: ApplyUi, picked: Option<BackupRead>) -> (r: (ApplyUi, Preflight))
    ensures
        (r.0@, r.1) == (match picked {
            None => (ui@, Preflight::Stop),
            Some(backup) => restoring(
                ui@,
                read_view(backup.bytes),
                text::opt(backup.rejected),
                backup.age@,
                backup.date@,
                text::texts(backup.notes@),
            ),
        }),
{
    match picked {
        None => (ui, Preflight::Stop),
        Some(backup) => restore_read(ui, backup),
    }
}

/// Restore a backup that was read.
fn restore_read(ui: ApplyUi, backup: BackupRead) -> (r: (ApplyUi, Preflight))
    ensures
        (r.0@, r.1) == restoring(
            ui@,
            read_view(backup.bytes),
            text::opt(backup.rejected),
            backup.age@,
            backup.date@,
            text::texts(backup.notes@),
        ),
{
    match backup.bytes {
        Err(e) => (
            ui.failed_still(strings::cat("couldn't read the backup file: ", e.as_str()).as_str()),
            Preflight::Stop,
        ),
        Ok(b) => {
            if b.len() > names::MAX_CONFIG_BYTES {
                return (ui.failed_still("this backup is too large to restore"), Preflight::Stop);
            }
            if !strings::is_utf8(b.as_slice()) {
                return (
                    ui.failed_still("this backup file is corrupt (not valid text)"),
                    Preflight::Stop,
                );
            }
            if let Some(e) = backup.rejected {
                let info = strings::cat(
                    "this backup is no longer valid for your keyd and can't be restored:\n",
                    e.as_str(),
                );
                return (ui.failed_still(info.as_str()), Preflight::Stop);
            }
            let mut info = strings::copy("Restoring the backup from ");
            info.append(backup.age.as_str());
            info.append(" (");
            info.append(backup.date.as_str());
            info.append(
                "). The current config is backed up first, so this is undoable.\n",
            );
            push_warnings(&mut info, &backup.notes);
            let confirm = tool::sensitive(&b);
            let state = if confirm { ApplyState::Confirm } else { ui.state };
            let next = if confirm { Preflight::Stop } else { Preflight::Launch };
            (
                ApplyUi {
                    state,
                    info,
                    pending: Pending::Restore(b),
                    running: ui.running,
                    counting: ui.counting,
                    capture_armed: ui.capture_armed,
                    backups_open: ui.backups_open,
                },
                next,
            )
        },
    }
}

/// What needs an acknowledgement never launches without one: a sensitive session or
/// backup stops in the confirm state, and only there does the confirming click count.
pub proof fn sensitive_waits_for_confirmation(
    ui: ApplyUiView,
    bytes: Seq<u8>,
    rejected: Option<Seq<char>>,
    review: ReviewView,
    age: Seq<char>,
    date: Seq<char>,
    notes: Seq<Seq<char>>,
)
    requires
        tool::is_sensitive(bytes),
    ensures
        starting(ui, true, Some(bytes), rejected, review).1 == Preflight::Stop,
        restoring(ui, Ok(bytes), rejected, age, date, notes).1 == Preflight::Stop,
        starting(ui, true, Some(bytes), rejected, review).0.state == ApplyState::Confirm
            || starting(ui, true, Some(bytes), rejected, review).0.state == ApplyState::Failed
            || starting(ui, true, Some(bytes), rejected, review).0 == ui,
{
}

/// An apply starts exactly where it may: from rest, with something changed, with content
/// that is there, fits, and that keyd accepts. It launches then, unless something in it or
/// in an include needs an acknowledgement, for which it waits. Whatever else was pending,
/// what is launched is the session; and what keeps it from starting is said.
pub proof fn an_apply_starts_exactly_where_it_may(
    ui: ApplyUiView,
    dirty: bool,
    bytes: Option<Seq<u8>>,
    rejected: Option<Seq<char>>,
    review: ReviewView,
    how: Option<InvocationView>,
    session: Option<SessionBytesView>,
    sensitive_ok: bool,
)
    ensures
        ({
            let (next, go) = starting(ui, dirty, bytes, rejected, review);
            let asked = ui.state == ApplyState::Idle && dirty;
            let fits = bytes is Some && bytes->0.len() <= 65536;
            let wary = bytes is Some && tool::is_sensitive(bytes->0) || review.included.len() > 0;
            let req = launching(next, how, session, sensitive_ok).1;
            &&& go == Preflight::Launch <==> asked && fits && rejected is None && !wary
            &&& next.state == ApplyState::Confirm && ui.state != ApplyState::Confirm <==> asked
                && fits && rejected is None && wary
            &&& next.state == ApplyState::Failed && ui.state != ApplyState::Failed <==> asked
                && bytes is Some && (!fits || rejected is Some)
            &&& !asked ==> next == ui
            &&& asked ==> next.pending == PendingView::Session
            &&& asked && req is Some ==> req->0.bytes == session->0.bytes
            &&& asked && fits && rejected is None ==> next.info == summary_of(review)
            &&& asked && fits && rejected is Some ==> text::ends_with(next.info, rejected->0)
        }),
{
    if rejected is Some {
        let head = "this config has an error and can't be applied — fix it first:\n"@;
        let e = rejected->0;
        assert((head + e).subrange(head.len() as int, (head + e).len() as int) =~= e);
    }
}

/// A restore sends exactly the bytes of the backup that was read: a backup that could be
/// read, fits, is text, and that keyd accepts is armed, and what is launched then, at once
/// or after the confirmation that a sensitive one waits for, carries those bytes under the
/// session's name, whatever the session holds. Any other backup arms nothing.
pub proof fn a_restore_sends_the_backup(
    ui: ApplyUiView,
    read: Result<Seq<u8>, Seq<char>>,
    rejected: Option<Seq<char>>,
    age: Seq<char>,
    date: Seq<char>,
    notes: Seq<Seq<char>>,
    how: Option<InvocationView>,
    session: Option<SessionBytesView>,
    sensitive_ok: bool,
)
    ensures
        ({
            let (armed, go) = restoring(ui, read, rejected, age, date, notes);
            let good = read is Ok && read->Ok_0.len() <= 65536 && vstd::utf8::valid_utf8(
                read->Ok_0,
            ) && rejected is None;
            let req = launching(armed, how, session, sensitive_ok).1;
            &&& go == Preflight::Launch <==> good && !tool::is_sensitive(read->Ok_0)
            &&& good ==> armed.pending == PendingView::Restore(read->Ok_0)
            &&& good && tool::is_sensitive(read->Ok_0) ==> armed.state == ApplyState::Confirm
            &&& good && !tool::is_sensitive(read->Ok_0) ==> armed.state == ui.state
            &&& !good ==> armed.state == ApplyState::Failed && armed.pending == ui.pending
            &&& good && req is Some ==> req->0.bytes == read->Ok_0
            &&& good && how is Some && session is Some ==> (req is Some <==> paths::target_name(
                session->0.path,
                how->0.config_dir(),
            ) is Some)
        }),
{
}

/// A restore that was called off never rides a later apply: what is launched after a cancel,
/// or by an apply that is started anew, is the session.
pub proof fn a_cancelled_restore_is_forgotten(
    ui: ApplyUiView,
    how: Option<InvocationView>,
    session: Option<SessionBytesView>,
    sensitive_ok: bool,
)
    requires
        ui.state != ApplyState::Idle,
        ui.state != ApplyState::Auth,
        ui.state != ApplyState::Countdown,
    ensures
        ({
            let next = cancelling(ui).0;
            let req = launching(next, how, session, sensitive_ok).1;
            &&& next.state == ApplyState::Idle
            &&& next.info.len() == 0
            &&& next.pending == PendingView::Session
            &&& req is Some ==> req->0.bytes == session->0.bytes
        }),
{
}

/// Backing out reverts a run exactly while it authenticates, and then leaves its outcome to
/// the tool: the panel goes on waiting. A countdown is not cancelled here, and rest stays
/// rest. No run is ever forgotten by it.
pub proof fn cancelling_waits_for_the_tool(ui: ApplyUiView)
    ensures
        cancelling(ui).1 <==> ui.state == ApplyState::Auth,
        ui.state == ApplyState::Auth ==> cancelling(ui).0.state == ApplyState::Auth
            && cancelling(ui).0.pending == ui.pending,
        ui.state == ApplyState::Countdown || ui.state == ApplyState::Idle ==> cancelling(ui).0
            == ui,
        cancelling(ui).0.running == ui.running,
        cancelling(ui).0.counting == ui.counting,
{
}

/// A config is deleted through the tool exactly where it is on disk, in the tool's
/// directory, and nothing else is in flight; one that was never on disk is only discarded.
/// What cannot be reached is said, and a run in flight or no session leaves it undone.
pub proof fn a_delete_goes_the_way_it_can(
    s: ApplyState,
    path: Option<Seq<char>>,
    is_new: bool,
    how: Option<InvocationView>,
)
    ensures
        ({
            let plan = delete_plan(s, path, is_new, how);
            let free = s != ApplyState::Confirm && s != ApplyState::Auth && s
                != ApplyState::Countdown && path is Some;
            &&& plan is Nothing <==> !free
            &&& plan is Discard <==> free && is_new
            &&& plan is Launch <==> free && !is_new && how is Some && paths::target_name(
                path->0,
                how->0.config_dir(),
            ) is Some
            &&& plan is Launch ==> Some(plan->Launch_0) == paths::target_name(
                path->0,
                how->0.config_dir(),
            )
        }),
{
}

// ---------------------------------------------------------------------------
// The outcome
// ---------------------------------------------------------------------------

/// What is to be done beyond the panel after an event.
#[derive(Debug)]
pub enum After {
    Nothing,
    /// Open the countdown dialog for so many seconds.
    OpenDialog(u64),
    /// Drop the board of the config that was deleted.
    DropBoard(String),
    /// Re-open the session on what is on disk now.
    Reopen,
}

pub enum AfterView {
    Nothing,
    OpenDialog(nat),
    DropBoard(Seq<char>),
    Reopen,
}

impl View for After {
    type V = AfterView;

    open spec fn view(&self) -> AfterView {
        match *self {
            After::Nothing => AfterView::Nothing,
            After::OpenDialog(n) => AfterView::OpenDialog(n as nat),
            After::DropBoard(p) => AfterView::DropBoard(p@),
            After::Reopen => AfterView::Reopen,
        }
    }
}

/// The panel at the end of a run.
pub open spec fn ended(ui: ApplyUiView, state: ApplyState, info: Option<Seq<char>>) -> ApplyUiView {
    ApplyUiView {
        state,
        info: match info {
            Some(i) => i,
            None => ui.info,
        },
        pending: PendingView::Session,
        running: false,
        counting: false,
        ..ui
    }
}

/// Why a run was reverted, in words.
pub open spec fn revert_reason(reason: Seq<char>) -> Seq<char> {
    if reason == "TimedOut"@ {
        "no confirmation in time"@
    } else if reason == "Eof"@ {
        "cancelled"@
    } else {
        reason
    }
}

/// What an event of a run does.
pub open spec fn handled(
    ui: ApplyUiView,
    ev: ApplyEventView,
    session_path: Option<Seq<char>>,
) -> (ApplyUiView, AfterView) {
    match ev {
        ApplyEventView::Finding(_) => (ui, AfterView::Nothing),
        ApplyEventView::Applied { secs } => (
            ApplyUiView { state: ApplyState::Countdown, ..ui },
            AfterView::OpenDialog(secs),
        ),
        ApplyEventView::Kept => match ui.pending {
            PendingView::Delete(path) => (
                ended(ui, ApplyState::Idle, None),
                AfterView::DropBoard(path),
            ),
            _ => (
                ended(
                    ui,
                    ApplyState::Kept,
                    match session_path {
                        Some(p) => Some(p + " updated"@),
                        None => None,
                    },
                ),
                AfterView::Reopen,
            ),
        },
        ApplyEventView::Reverted(reason) => (
            ended(
                ui,
                ApplyState::Reverted,
                Some(
                    "reverted: "@ + revert_reason(reason)
                        + " — the previous config is back; your edits are still staged"@,
                ),
            ),
            AfterView::Nothing,
        ),
        ApplyEventView::RevertFailed(w) => (
            ended(ui, ApplyState::RevertFailed, Some(w)),
            AfterView::Nothing,
        ),
        ApplyEventView::Refused(r) => (
            ended(
                ui,
                ApplyState::Failed,
                Some("refused: "@ + r + " — nothing was written"@),
            ),
            AfterView::Nothing,
        ),
        ApplyEventView::AuthDismissed => (
            ended(
                ui,
                ApplyState::Failed,
                Some("authentication cancelled — nothing was written"@),
            ),
            AfterView::Nothing,
        ),
        ApplyEventView::NotAuthorized => (
            ended(
                ui,
                ApplyState::Failed,
                Some(
                    "authorization unavailable (is a polkit agent running?) — nothing was written"@,
                ),
            ),
            AfterView::Nothing,
        ),
        ApplyEventView::Failed(m) => (ended(ui, ApplyState::Failed, Some(m)), AfterView::Nothing),
    }
}

impl ApplyUi {
    /// The panel at the end of a run.
    fn end(self, state: ApplyState, info: Option<String>) -> (r: ApplyUi)
        ensures
            r@ == ended(self@, state, text::opt(info)),
    {
        let info = match info {
            Some(i) => i,
            None => self.info,
        };
        ApplyUi {
            state,
            info,
            pending: Pending::Session,
            running: false,
            counting: false,
            capture_armed: self.capture_armed,
            backups_open: self.backups_open,
        }
    }
}

/// Take in an event of a run. Terminal events stop the countdown and release the run;
/// only the tool's verdict lines decide the outcome.
pub fn handle_apply_event(ui: ApplyUi, ev: ApplyEvent, session_path: Option<String>) -> (r: (
    ApplyUi,
    After,
))
    ensures
        (r.0@, r.1@) == handled(ui@, ev@, text::opt(session_path)),
{
    match ev {
        ApplyEvent::Finding(_) => (ui, After::Nothing),
        ApplyEvent::Applied { secs } => (
            ApplyUi {
                state: ApplyState::Countdown,
                info: ui.info,
                pending: ui.pending,
                running: ui.running,
                counting: ui.counting,
                capture_armed: ui.capture_armed,
                backups_open: ui.backups_open,
            },
            After::OpenDialog(secs),
        ),
        ApplyEvent::Kept => {
            let mut dropped: Option<String> = None;
            if let Pending::Delete(path) = &ui.pending {
                dropped = Some(strings::copy(path.as_str()));
            }
            match dropped {
                Some(path) => (ui.end(ApplyState::Idle, None), After::DropBoard(path)),
                None => {
                    let info = match session_path {
                        Some(p) => Some(strings::cat(p.as_str(), " updated")),
                        None => None,
                    };
                    (ui.end(ApplyState::Kept, info), After::Reopen)
                },
            }
        },
        ApplyEvent::Reverted(reason) => {
            let why = if strings::same(reason.as_str(), "TimedOut") {
                strings::copy("no confirmation in time")
            } else if strings::same(reason.as_str(), "Eof") {
                strings::copy("cancelled")
            } else {
                reason
            };
            let info = strings::cat3(
                "reverted: ",
                why.as_str(),
                " — the previous config is back; your edits are still staged",
            );
            (ui.end(ApplyState::Reverted, Some(info)), After::Nothing)
        },
        ApplyEvent::RevertFailed(w) => (
            ui.end(ApplyState::RevertFailed, Some(w)),
            After::Nothing,
        ),
        ApplyEvent::Refused(r) => {
            let info = strings::cat3("refused: ", r.as_str(), " — nothing was written");
            (ui.end(ApplyState::Failed, Some(info)), After::Nothing)
        },
        ApplyEvent::AuthDismissed => (
            ui.end(
                ApplyState::Failed,
                Some(strings::copy("authentication cancelled — nothing was written")),
            ),
            After::Nothing,
        ),
        ApplyEvent::NotAuthorized => (
            ui.end(
                ApplyState::Failed,
                Some(
                    strings::copy(
                        "authorization unavailable (is a polkit agent running?) — nothing was written",
                    ),
                ),
            ),
            After::Nothing,
        ),
        ApplyEvent::Failed(m) => (ui.end(ApplyState::Failed, Some(m)), After::Nothing),
    }
}

/// The panel after the countdown dialog opened, or failed to for the reason given, and
/// whether the change is reverted at once: without a control surface it could not be kept.
pub open spec fn window_opened(ui: ApplyUiView, error: Option<Seq<char>>) -> (ApplyUiView, bool) {
    match error {
        None => (ApplyUiView { counting: true, ..ui }, false),
        Some(e) => (
            ApplyUiView {
                info: "couldn't open the test window: "@ + e + " — reverting"@,
                ..ui
            },
            true,
        ),
    }
}

/// Take in whether the countdown dialog opened; `error` is why not. Without a control
/// surface the change could not be kept, so it is then reverted at once.
pub fn dialog_opened(ui: ApplyUi, error: Option<String>) -> (r: (ApplyUi, bool))
    ensures
        (r.0@, r.1) == window_opened(ui@, text::opt(error)),
{
    match error {
        None => (
            ApplyUi {
                state: ui.state,
                info: ui.info,
                pending: ui.pending,
                running: ui.running,
                counting: true,
                capture_armed: ui.capture_armed,
                backups_open: ui.backups_open,
            },
            false,
        ),
        Some(e) => (
            ApplyUi {
                state: ui.state,
                info: strings::cat3("couldn't open the test window: ", e.as_str(), " — reverting"),
                pending: ui.pending,
                running: ui.running,
                counting: ui.counting,
                capture_armed: ui.capture_armed,
                backups_open: ui.backups_open,
            },
            true,
        ),
    }
}

/// Every terminal event ends the run: nothing is in flight, counting or pending
/// afterwards, and the panel no longer blocks the user. The other events leave the run
/// as it is.
pub proof fn terminal_events_end_the_run(
    ui: ApplyUiView,
    ev: ApplyEventView,
    session_path: Option<Seq<char>>,
)
    ensures
        ({
            let next = handled(ui, ev, session_path).0;
            &&& ev.is_terminal() ==> !next.running && !next.counting && next.pending
                == PendingView::Session && !is_busy(next.state)
            &&& !ev.is_terminal() ==> next.running == ui.running && next.pending == ui.pending
        }),
{
}

/// The panel shows `kept` only after the tool said so, and a board is dropped only for a
/// delete that was kept.
pub proof fn kept_is_shown_only_when_kept(
    ui: ApplyUiView,
    ev: ApplyEventView,
    session_path: Option<Seq<char>>,
)
    ensures
        handled(ui, ev, session_path).0.state == ApplyState::Kept && ui.state != ApplyState::Kept
            ==> ev is Kept,
        handled(ui, ev, session_path).1 is DropBoard ==> ev is Kept && ui.pending is Delete,
{
}

/// The panel shows how the run went: the countdown, for the time that the tool gave, once
/// the change is live; `kept`, with the session opened again, or the board of a deleted
/// config dropped; `reverted` with the reason; and a failure with what was said.
pub proof fn the_panel_shows_how_it_went(
    ui: ApplyUiView,
    ev: ApplyEventView,
    session_path: Option<Seq<char>>,
)
    ensures
        ({
            let (next, todo) = handled(ui, ev, session_path);
            &&& ev matches ApplyEventView::Applied { secs } ==> next.state
                == ApplyState::Countdown && todo == AfterView::OpenDialog(secs)
            &&& todo is OpenDialog ==> ev is Applied
            &&& ev is Kept && ui.pending is Delete ==> todo == AfterView::DropBoard(
                ui.pending->Delete_0,
            ) && next.state == ApplyState::Idle
            &&& ev is Kept && !(ui.pending is Delete) ==> todo is Reopen && next.state
                == ApplyState::Kept
            &&& todo is Reopen ==> ev is Kept
            &&& ev is Kept && !(ui.pending is Delete) && session_path is Some ==> next.info
                == session_path->0 + " updated"@
            &&& ev is Reverted <==> next.state == ApplyState::Reverted && ev.is_terminal()
            &&& ev is RevertFailed <==> next.state == ApplyState::RevertFailed && ev.is_terminal()
            &&& ev matches ApplyEventView::RevertFailed(w) ==> next.info == w
            &&& ev matches ApplyEventView::Failed(m) ==> next.info == m && next.state
                == ApplyState::Failed
            &&& ev matches ApplyEventView::Refused(m) ==> next.info == "refused: "@ + m
                + " — nothing was written"@ && next.state == ApplyState::Failed
            &&& ev is AuthDismissed || ev is NotAuthorized ==> next.state == ApplyState::Failed
                && text::ends_with(next.info, "nothing was written"@)
            &&& ev matches ApplyEventView::Reverted(why) ==> {
                let said = if why == "TimedOut"@ {
                    "no confirmation in time"@
                } else if why == "Eof"@ {
                    "cancelled"@
                } else {
                    why
                };
                next.info == "reverted: "@ + said
                    + " — the previous config is back; your edits are still staged"@
            }
            &&& ev is Finding ==> next == ui && todo is Nothing
            &&& next.capture_armed == ui.capture_armed && next.backups_open == ui.backups_open
        }),
{
    let w = "nothing was written"@;
    reveal_strlit("nothing was written");
    reveal_strlit("authentication cancelled — nothing was written");
    reveal_strlit("authorization unavailable (is a polkit agent running?) — nothing was written");
    let info = handled(ui, ev, session_path).0.info;
    if ev is AuthDismissed || ev is NotAuthorized {
        assert(info.subrange(info.len() - w.len(), info.len() as int) =~= w);
    }
}

/// Dropping the board of a deleted config drops that one, if it has any, and leaves a board
/// on screen that is there: the one at the same position, or the last.
pub proof fn a_board_stays_on_screen(boards: Seq<Seq<char>>, path: Seq<char>, active: int)
    ensures
        ({
            let (gone, shown) = boards_after_delete(boards, path, active);
            let left = if gone is Some {
                boards.len() - 1
            } else {
                boards.len() as int
            };
            &&& gone is None ==> !boards.contains(path)
            &&& gone is Some ==> 0 <= gone->0 < boards.len() && paths::same_path(
                boards[gone->0],
                path,
            )
            &&& left > 0 ==> 0 <= shown < left
            &&& left <= 0 ==> shown == 0
            &&& 0 <= active < left ==> shown == active
            &&& active >= left > 0 ==> shown == left - 1
            &&& active < 0 ==> shown == 0
        }),
{
    paths::the_first_same_path_is_found(boards, path);
}

// ---------------------------------------------------------------------------
// Boards and backups
// ---------------------------------------------------------------------------

/// The boards after a deleted one is dropped: which one goes, and which is active then.
pub open spec fn boards_after_delete(
    boards: Seq<Seq<char>>,
    path: Seq<char>,
    active: int,
) -> (Option<int>, int) {
    let gone = paths::path_index(boards, path);
    let left = if gone is Some {
        boards.len() - 1
    } else {
        boards.len() as int
    };
    (
        gone,
        if left <= 0 {
            0
        } else if active < 0 {
            0
        } else if active > left - 1 {
            left - 1
        } else {
            active
        },
    )
}

/// Which board goes once the config at `path` is deleted, and which one is active then:
/// the same position, or the last that survives.
pub fn remove_config_after_delete(boards: &Vec<String>, path: &str, active: i32) -> (r: (
    Option<usize>,
    i32,
))
    requires
        boards@.len() <= i32::MAX,
    ensures
        ({
            let want = boards_after_delete(text::texts(boards@), path@, active as int);
            &&& r.1 == want.1
            &&& match r.0 {
                Some(i) => want.0 == Some(i as int),
                None => want.0 is None,
            }
        }),
{
    let gone = paths::find_path(boards, path);
    let n: usize = boards.len();
    let left: usize = match gone {
        Some(_) => n - 1,
        None => n,
    };
    let next: i32 = if left == 0 || active < 0 {
        0
    } else if active > left as i32 - 1 {
        left as i32 - 1
    } else {
        active
    };
    (gone, next)
}

/// `n` divided by `d` to the nearest whole number, the even one of two that are as near.
pub open spec fn half_even(n: nat, d: nat) -> nat {
    let q = n / d;
    let r = n % d;
    if 2 * r > d || (2 * r == d && q % 2 == 1) {
        q + 1
    } else {
        q
    }
}

/// The spacing of the numbers with fifty-three significant bits around `n`, doubling
/// from `unit`.
pub open spec fn spacing(n: nat, unit: nat) -> nat
    decreases n / unit,
    when unit > 0
{
    if n / unit < 0x20_0000_0000_0000 {
        unit
    } else {
        proof {
            assert(n / (2 * unit) < n / unit) by (nonlinear_arith)
                requires
                    unit > 0,
                    n / unit >= 0x20_0000_0000_0000,
            ;
        }
        spacing(n, 2 * unit)
    }
}

/// `n` to fifty-three significant bits.
pub open spec fn to_double(n: nat) -> nat {
    half_even(n, spacing(n, 1)) * spacing(n, 1)
}

/// A byte count as a compact human size: bytes below a kilobyte, else kilobytes to one
/// decimal.
pub open spec fn size_text(n: nat) -> Seq<char> {
    if n < 1024 {
        text::decimal(n) + " B"@
    } else {
        let tenths = half_even(to_double(n) * 10, 1024);
        text::decimal(tenths / 10) + "."@ + text::decimal(tenths % 10) + " KB"@
    }
}

/// `n / d` to the nearest, the even one of two that are as near.
fn round_half_even(n: u128, d: u128) -> (r: u128)
    requires
        0 < d <= 0x1_0000_0000_0000_0000,
        n <= 0xffff_ffff_ffff_ffff_ffff,
    ensures
        r == half_even(n as nat, d as nat),
        r <= n / d + 1,
{
    let q: u128 = n / d;
    let m: u128 = n % d;
    assert(q <= n) by (nonlinear_arith)
        requires
            q == n / d,
            d > 0,
    ;
    if 2 * m > d || (2 * m == d && q % 2 == 1) {
        q + 1
    } else {
        q
    }
}

/// A byte count as a compact human size ("843 B" or "1.2 KB").
pub fn human_size(n: u64) -> (r: String)
    ensures
        r@ == size_text(n as nat),
{
    if n < 1024 {
        return strings::cat(strings::decimal(n).as_str(), " B");
    }
    let mut unit: u128 = 1;
    let wide: u128 = n as u128;
    while wide / unit >= 0x20_0000_0000_0000
        invariant
            1 <= unit <= 0x1000,
            wide == n,
            spacing(n as nat, unit as nat) == spacing(n as nat, 1),
        decreases wide / unit,
    {
        proof {
            let w = wide as int;
            let u = unit as int;
            assert(u <= 0x7ff && w / (2 * u) < w / u) by (nonlinear_arith)
                requires
                    1 <= u,
                    w <= 0xffff_ffff_ffff_ffff,
                    w / u >= 0x20_0000_0000_0000,
            ;
        }
        unit = 2 * unit;
    }
    let rounded: u128 = round_half_even(wide, unit);
    proof {
        assert(rounded * unit <= 0x1_0000_0000_0000_1000) by (nonlinear_arith)
            requires
                rounded <= wide / unit + 1,
                1 <= unit <= 0x1000,
                wide <= 0xffff_ffff_ffff_ffff,
        ;
    }
    let tenths: u128 = round_half_even(rounded * unit * 10, 1024);
    let whole: u64 = (tenths / 10) as u64;
    let mut r = strings::decimal(whole);
    r.append(".");
    r.append(strings::decimal((tenths % 10) as u64).as_str());
    r.append(" KB");
    r
}

/// The second line of a row in the restore panel: the date and the size of a backup.
pub fn backup_detail(date: &str, size: u64) -> (r: String)
    ensures
        r@ == date@ + " · "@ + size_text(size as nat),
{
    strings::cat3(date, " · ", human_size(size).as_str())
}

/// The rows of the restore panel: the age of each backup, and its date with its size.
pub open spec fn rows_of(
    found: Seq<BackupView>,
    ages: Seq<Seq<char>>,
    dates: Seq<Seq<char>>,
) -> Seq<(Seq<char>, Seq<char>)> {
    Seq::new(found.len(), |i: int| (ages[i], dates[i] + " · "@ + size_text(found[i].size)))
}

/// The rows, read as texts.
pub open spec fn row_texts(rows: Seq<(String, String)>) -> Seq<(Seq<char>, Seq<char>)> {
    rows.map_values(|r: (String, String)| (r.0@, r.1@))
}

/// The rows of the restore panel, one for each backup in the order listed, and whether
/// there is anything to restore.
pub fn backup_rows(found: &Vec<Backup>, ages: &Vec<String>, dates: &Vec<String>) -> (r: (
    Vec<(String, String)>,
    bool,
))
    requires
        ages.len() == found.len(),
        dates.len() == found.len(),
    ensures
        row_texts(r.0@) == rows_of(
            text::views(found@),
            text::texts(ages@),
            text::texts(dates@),
        ),
        r.1 == (found.len() > 0),
{
    let mut rows: Vec<(String, String)> = Vec::new();
    let mut i: usize = 0;
    while i < found.len()
        invariant
            i <= found.len(),
            ages.len() == found.len(),
            dates.len() == found.len(),
            row_texts(rows@) == rows_of(
                text::views(found@),
                text::texts(ages@),
                text::texts(dates@),
            ).subrange(0, i as int),
        decreases found.len() - i,
    {
        let age = strings::copy(ages[i].as_str());
        let detail = backup_detail(dates[i].as_str(), found[i].size);
        let ghost before = rows@;
        let ghost row = (age@, detail@);
        rows.push((age, detail));
        proof {
            assert(row_texts(rows@) =~= row_texts(before).push(row));
            let all = rows_of(text::views(found@), text::texts(ages@), text::texts(dates@));
            assert(all[i as int] == row);
            assert(all.subrange(0, i + 1) =~= all.subrange(0, i as int).push(row));
        }
        i += 1;
    }
    proof {
        let all = rows_of(text::views(found@), text::texts(ages@), text::texts(dates@));
        assert(all.subrange(0, i as int) =~= all);
    }
    let any = !rows.is_empty();
    proof {
        assert(rows@.len() == row_texts(rows@).len());
    }
    (rows, any)
}

/// The config name whose backups are listed: that of a session one-click apply can
/// target.
pub open spec fn backed_up(path: Option<Seq<char>>, how: Option<InvocationView>) -> Option<
    Seq<char>,
> {
    match (how, path) {
        (Some(h), Some(p)) => paths::target_name(p, h.config_dir()),
        _ => None,
    }
}

/// The config name whose backups are listed.
pub fn backups_of(path: &Option<String>, how: &Option<Invocation>) -> (r: Option<String>)
    ensures
        text::opt(r) == backed_up(text::opt(*path), applying::invocation_opt(*how)),
{
    match how {
        None => None,
        Some(h) => match path {
            None => None,
            Some(p) => paths::target_of(p.as_str(), h.config_dir()),
        },
    }
}

/// A run is in flight from the confirmation to its end: while it waits to be confirmed, for
/// the password, or for the countdown, and at no other time. Nothing else is done then.
pub proof fn only_a_run_is_waited_for(s: ApplyState)
    ensures
        is_busy(s) <==> !(s == ApplyState::Idle || s == ApplyState::Kept || s
            == ApplyState::Reverted || s == ApplyState::Failed || s == ApplyState::RevertFailed),
{
}

/// A run that was torn down leaves no run, no countdown and nothing pending; the rest of the
/// panel stays as it is.
pub proof fn a_torn_down_run_is_gone(ui: ApplyUiView)
    ensures
        !torn_down(ui).running && !torn_down(ui).counting,
        torn_down(ui).pending == PendingView::Session,
        torn_down(ui).state == ui.state && torn_down(ui).info == ui.info,
        torn_down(ui).capture_armed == ui.capture_armed && torn_down(ui).backups_open
            == ui.backups_open,
{
}

/// A tool that started runs, and what it was started for is left to it; one that did not is a
/// failure that says why, with nothing pending and no run.
pub proof fn a_tool_that_starts_runs(ui: ApplyUiView, why: Seq<char>)
    ensures
        tool_started(ui, None).running,
        tool_started(ui, None).state == ui.state && tool_started(ui, None).pending == ui.pending
            && tool_started(ui, None).info == ui.info,
        tool_started(ui, Some(why)).state == ApplyState::Failed,
        tool_started(ui, Some(why)).running == ui.running,
        tool_started(ui, Some(why)).pending == PendingView::Session,
        tool_started(ui, Some(why)).info == "couldn't start applying: "@ + why,
{
}

/// A countdown that can be seen counts, and one that can't is reverted at once with the
/// reason: nothing is left running that nobody could keep.
pub proof fn an_unseen_countdown_is_reverted(ui: ApplyUiView, why: Seq<char>)
    ensures
        window_opened(ui, None).0.counting && !window_opened(ui, None).1,
        window_opened(ui, None).0.info == ui.info,
        window_opened(ui, Some(why)).1,
        window_opened(ui, Some(why)).0.counting == ui.counting,
        window_opened(ui, Some(why)).0.info == "couldn't open the test window: "@ + why
            + " — reverting"@,
        window_opened(ui, Some(why)).0.state == ui.state && window_opened(ui, None).0.state
            == ui.state,
{
}

/// The backup that is picked is the one at its index, and nothing beside the list is one.
pub proof fn the_backup_at_the_index_is_picked(
    front: Seq<BackupView>,
    one: BackupView,
    back: Seq<BackupView>,
    idx: int,
)
    ensures
        picked_backup(front.push(one) + back, front.len() as int) == Some(one),
        idx < 0 || idx >= front.len() ==> picked_backup(front, idx) is None,
{
    assert((front.push(one) + back)[front.len() as int] == one);
}

/// Backups are listed for a config exactly where one-click apply could write it, under its
/// name.
pub proof fn backups_are_of_what_can_be_applied(dir: Seq<char>, name: Seq<char>, h: InvocationView)
    requires
        names::is_valid_name(name),
        dir == h.config_dir(),
    ensures
        backed_up(Some(paths::join(dir, name + ".conf"@)), Some(h)) == Some(name),
        backed_up(Some(paths::join(dir, name + ".conf"@)), None) is None,
        backed_up(None, Some(h)) is None,
{
    paths::a_config_of_the_directory_is_a_target(dir, name);
}

/// A click launches an apply only where it was asked to confirm one.
pub proof fn only_what_was_asked_for_is_confirmed(s: ApplyState)
    ensures
        confirms(ApplyState::Confirm),
        s != ApplyState::Confirm ==> !confirms(s),
        confirms(s) ==> is_busy(s),
{
}

/// The tenths of a kilobyte that a size is shown with.
pub open spec fn shown_tenths(n: nat, tenths: nat) -> bool {
    size_text(n) == text::decimal(tenths / 10) + "."@ + text::decimal(tenths % 10) + " KB"@
}

/// A size below a kilobyte is shown in bytes, and another in kilobytes, to the nearest tenth
/// of one.
pub proof fn a_size_is_shown_to_the_tenth(n: nat)
    requires
        n < 0x20_0000_0000_0000,
    ensures
        n < 1024 ==> size_text(n) == text::decimal(n) + " B"@,
        n >= 1024 ==> exists|tenths: nat| #[trigger]
            shown_tenths(n, tenths) && 2 * tenths * 1024 <= 2 * n * 10 + 1024 && 2 * n * 10 <= 2
                * tenths * 1024 + 1024,
{
    if n >= 1024 {
        assert(spacing(n, 1) == 1);
        assert(half_even(n, 1) == n);
        assert(to_double(n) == n);
        let tenths = half_even(n * 10, 1024);
        assert(shown_tenths(n, tenths));
    }
}

/// Each backup has its row in its place: its age, and its own date and size.
pub proof fn each_backup_has_its_row(
    found: Seq<BackupView>,
    ages: Seq<Seq<char>>,
    dates: Seq<Seq<char>>,
    i: int,
)
    requires
        0 <= i < found.len(),
    ensures
        rows_of(found, ages, dates).len() == found.len(),
        rows_of(found, ages, dates)[i] == (ages[i], dates[i] + " · "@ + size_text(found[i].size)),
{
}

} // verus!
