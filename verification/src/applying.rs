//! The caller's side of the one-click apply path.
//!
//! Speaks the protocol of [`crate::tool`] across a privilege boundary: what to invoke,
//! what to send, and how to read what comes back. The user's KEEP is the only thing that
//! persists a change; everything else drops this end of the tool's input, and the end of
//! input reverts.

use crate::names;
use crate::paths;
use crate::scan;
use crate::scan::Finding;
use crate::scan::FindingView;
use crate::strings;
use crate::text;
use crate::tool;
use vstd::prelude::*;

verus! {

/// Dead-man window asked for, in seconds.
pub const TIMEOUT_SECS: u64 = 30;

/// The directory the privileged tool writes to.
pub open spec fn config_root() -> Seq<char> {
    "/etc/keyd"@
}

/// keyd's secondary include search directory.
pub open spec fn data_root() -> Seq<char> {
    "/usr/share/keyd"@
}

/// The directory the privileged tool writes to (it derives `<dir>/<name>.conf` from the
/// name; no path is ever passed).
pub fn prod_config_dir() -> (r: &'static str)
    ensures
        r@ == config_root(),
{
    "/etc/keyd"
}

/// keyd's secondary include search directory, tried after the config's own directory.
pub fn keyd_data_dir() -> (r: &'static str)
    ensures
        r@ == data_root(),
{
    "/usr/share/keyd"
}

// ---------------------------------------------------------------------------
// One level of includes
// ---------------------------------------------------------------------------

/// A `command(` or `macro(` inside a file that an include directive pulls in.
#[derive(Debug, PartialEq, Eq)]
pub struct IncludedFinding {
    /// The argument that pulled the file in.
    pub include_arg: String,
    /// The resolved file that was scanned.
    pub file: String,
    /// The sensitive construct found inside it.
    pub finding: Finding,
}

pub struct IncludedView {
    pub include_arg: Seq<char>,
    pub file: Seq<char>,
    pub finding: FindingView,
}

impl View for IncludedFinding {
    type V = IncludedView;

    open spec fn view(&self) -> IncludedView {
        IncludedView {
            include_arg: self.include_arg@,
            file: self.file@,
            finding: self.finding@,
        }
    }
}

/// A regular file that exists, with its bytes where it could be read.
#[derive(Debug)]
pub struct FileSeen {
    pub path: String,
    pub content: Option<Vec<u8>>,
}

pub struct FileSeenView {
    pub path: Seq<char>,
    pub content: Option<Seq<u8>>,
}

impl View for FileSeen {
    type V = FileSeenView;

    open spec fn view(&self) -> FileSeenView {
        FileSeenView {
            path: self.path@,
            content: match self.content {
                Some(b) => Some(b@),
                None => None,
            },
        }
    }
}

/// The first file seen at `path`.
pub open spec fn seen_at(files: Seq<FileSeenView>, path: Seq<char>) -> Option<FileSeenView>
    decreases files.len(),
{
    if files.len() == 0 {
        None
    } else {
        match seen_at(files.drop_last(), path) {
            Some(f) => Some(f),
            None => if files.last().path == path {
                Some(files.last())
            } else {
                None
            },
        }
    }
}

/// The file keyd would include for `arg`: beside the config first, then in the data
/// directory.
pub open spec fn resolve(
    arg: Seq<char>,
    config_dir: Seq<char>,
    data_dir: Seq<char>,
    files: Seq<FileSeenView>,
) -> Option<FileSeenView> {
    match seen_at(files, paths::join(config_dir, arg)) {
        Some(f) => Some(f),
        None => seen_at(files, paths::join(data_dir, arg)),
    }
}

/// Those among the first `n` findings of an included file that must be acknowledged.
pub open spec fn sensitive_upto(
    arg: Seq<char>,
    file: Seq<char>,
    inner: Seq<FindingView>,
    n: nat,
) -> Seq<IncludedView>
    decreases n,
{
    if n == 0 {
        Seq::empty()
    } else {
        let before = sensitive_upto(arg, file, inner, (n - 1) as nat);
        if inner[n - 1].needs_ack() {
            before.push(IncludedView { include_arg: arg, file, finding: inner[n - 1] })
        } else {
            before
        }
    }
}

/// What one finding of the config itself brings in.
pub open spec fn brought_in(
    f: FindingView,
    config_dir: Seq<char>,
    data_dir: Seq<char>,
    files: Seq<FileSeenView>,
) -> Seq<IncludedView> {
    match f {
        FindingView::Include { arg, .. } => match resolve(arg, config_dir, data_dir, files) {
            None => Seq::empty(),
            Some(file) => match file.content {
                None => Seq::empty(),
                Some(bytes) => sensitive_upto(
                    arg,
                    file.path,
                    scan::findings(bytes),
                    scan::findings(bytes).len(),
                ),
            },
        },
        _ => Seq::empty(),
    }
}

/// What the first `n` findings of the config bring in.
pub open spec fn included_upto(
    base: Seq<FindingView>,
    config_dir: Seq<char>,
    data_dir: Seq<char>,
    files: Seq<FileSeenView>,
    n: nat,
) -> Seq<IncludedView>
    decreases n,
{
    if n == 0 {
        Seq::empty()
    } else {
        included_upto(base, config_dir, data_dir, files, (n - 1) as nat) + brought_in(
            base[n - 1],
            config_dir,
            data_dir,
            files,
        )
    }
}

impl IncludedFinding {
    /// A pre-flight line naming the argument, the resolved file, and the construct.
    pub fn describe(&self) -> (r: String)
        ensures
            r@ == "included `"@ + self.include_arg@ + "` ("@ + self.file@ + ") "@
                + self.finding@.describe(),
    {
        let mut r = strings::copy("included `");
        r.append(self.include_arg.as_str());
        r.append("` (");
        r.append(self.file.as_str());
        r.append(") ");
        r.append(self.finding.describe().as_str());
        r
    }
}

/// The index of the first file seen at `path`.
fn find_seen(files: &Vec<FileSeen>, path: &str) -> (r: Option<usize>)
    ensures
        match r {
            Some(i) => i < files@.len() && seen_at(text::views(files@), path@) == Some(
                files@[i as int]@,
            ),
            None => seen_at(text::views(files@), path@) is None,
        },
{
    let ghost all = text::views(files@);
    let mut i: usize = 0;
    while i < files.len()
        invariant
            i <= files@.len(),
            all == text::views(files@),
            seen_at(all.subrange(0, i as int), path@) is None,
        decreases files.len() - i,
    {
        let ghost next = all.subrange(0, i + 1);
        assert(next.drop_last() =~= all.subrange(0, i as int));
        assert(next.last() == files@[i as int]@);
        if strings::same(files[i].path.as_str(), path) {
            proof {
                seen_first_is_stable(all, path@, i + 1);
            }
            return Some(i);
        }
        i = i + 1;
    }
    assert(all.subrange(0, i as int) =~= all);
    None
}

/// More files behind do not change which is seen first.
proof fn seen_first_is_stable(files: Seq<FileSeenView>, path: Seq<char>, n: int)
    requires
        0 <= n <= files.len(),
        seen_at(files.subrange(0, n), path) is Some,
    ensures
        seen_at(files, path) == seen_at(files.subrange(0, n), path),
    decreases files.len(),
{
    if n < files.len() {
        assert(files.drop_last().subrange(0, n) =~= files.subrange(0, n));
        seen_first_is_stable(files.drop_last(), path, n);
    } else {
        assert(files.subrange(0, n) =~= files);
    }
}

/// The file keyd would include for `arg`, by its index among the files seen.
fn resolve_include(arg: &str, config_dir: &str, data_dir: &str, files: &Vec<FileSeen>) -> (r: Option<
    usize,
>)
    ensures
        match r {
            Some(i) => i < files@.len() && resolve(
                arg@,
                config_dir@,
                data_dir@,
                text::views(files@),
            ) == Some(files@[i as int]@),
            None => resolve(arg@, config_dir@, data_dir@, text::views(files@)) is None,
        },
{
    match find_seen(files, paths::join_path(config_dir, arg).as_str()) {
        Some(i) => Some(i),
        None => find_seen(files, paths::join_path(data_dir, arg).as_str()),
    }
}

/// The paths at which the includes among the first `n` findings may be found.
pub open spec fn candidates_upto(
    base: Seq<FindingView>,
    config_dir: Seq<char>,
    data_dir: Seq<char>,
    n: nat,
) -> Seq<Seq<char>>
    decreases n,
{
    if n == 0 {
        Seq::empty()
    } else {
        let before = candidates_upto(base, config_dir, data_dir, (n - 1) as nat);
        match base[n - 1] {
            FindingView::Include { arg, .. } => before.push(paths::join(config_dir, arg)).push(
                paths::join(data_dir, arg),
            ),
            _ => before,
        }
    }
}

/// The paths at which the includes of the config may be found, beside the config and in
/// the data directory, in the order of the directives.
pub fn include_candidates(base: &Vec<Finding>, config_dir: &str, data_dir: &str) -> (r: Vec<String>)
    ensures
        text::texts(r@) == candidates_upto(
            text::views(base@),
            config_dir@,
            data_dir@,
            base@.len(),
        ),
{
    let ghost all = text::views(base@);
    let mut r: Vec<String> = Vec::new();
    let mut n: usize = 0;
    assert(text::texts(r@) =~= Seq::<Seq<char>>::empty());
    while n < base.len()
        invariant
            n <= base@.len(),
            all == text::views(base@),
            text::texts(r@) == candidates_upto(all, config_dir@, data_dir@, n as nat),
        decreases base.len() - n,
    {
        let ghost before = text::texts(r@);
        assert(all[n as int] == base@[n as int]@);
        if let Finding::Include { arg, .. } = &base[n] {
            r.push(paths::join_path(config_dir, arg.as_str()));
            r.push(paths::join_path(data_dir, arg.as_str()));
            assert(text::texts(r@) =~= before.push(paths::join(config_dir@, arg@)).push(
                paths::join(data_dir@, arg@),
            ));
        }
        n = n + 1;
    }
    r
}

/// Move the findings that must be acknowledged out of those of an included file.
fn take_sensitive(arg: &str, file: &str, inner: Vec<Finding>) -> (r: Vec<IncludedFinding>)
    ensures
        text::views(r@) == sensitive_upto(arg@, file@, text::views(inner@), inner@.len()),
{
    let ghost all = text::views(inner@);
    let mut rest = inner;
    let mut back: Vec<Finding> = Vec::new();
    let ghost n = rest@.len();
    while rest.len() > 0
        invariant
            rest@.len() + back@.len() == n,
            all.len() == n,
            text::views(rest@) == all.subrange(0, rest@.len() as int),
            forall|j: int| 0 <= j < back@.len() ==> #[trigger] back@[j]@ == all[n - 1 - j],
        decreases rest.len(),
    {
        let ghost k = rest@.len() - 1;
        let ghost rest0 = rest@;
        match rest.pop() {
            Some(f) => {
                assert(f@ == text::views(rest0)[k]);
                assert(f@ == all[k]);
                back.push(f);
                assert(text::views(rest@) =~= all.subrange(0, rest@.len() as int)) by {
                    assert forall|j: int| 0 <= j < rest@.len() implies rest@[j]@ == all[j] by {
                        assert(text::views(rest0)[j] == all[j]);
                    }
                }
            },
            None => {},
        }
    }
    let mut r: Vec<IncludedFinding> = Vec::new();
    assert(text::views(r@) =~= Seq::<IncludedView>::empty());
    while back.len() > 0
        invariant
            back@.len() <= n,
            all.len() == n,
            forall|j: int| 0 <= j < back@.len() ==> #[trigger] back@[j]@ == all[n - 1 - j],
            text::views(r@) == sensitive_upto(arg@, file@, all, (n - back@.len()) as nat),
        decreases back.len(),
    {
        let ghost done = (n - back@.len()) as nat;
        let ghost r0 = r@;
        let ghost back0 = back@;
        match back.pop() {
            Some(f) => {
                assert(back0[back0.len() - 1]@ == all[done as int]);
                let ghost fv = f@;
                if f.needs_ack() {
                    r.push(
                        IncludedFinding {
                            include_arg: strings::copy(arg),
                            file: strings::copy(file),
                            finding: f,
                        },
                    );
                    assert(text::views(r@) =~= text::views(r0).push(
                        IncludedView { include_arg: arg@, file: file@, finding: fv },
                    ));
                }
            },
            None => {},
        }
    }
    r
}

/// One-level include scan: for each include directive, scan the file keyd would include
/// and keep only what must be acknowledged. Not recursive, since the include lines of an
/// included file are dead to keyd. A missing or unreadable include is skipped. `files`
/// says which regular files exist, and what they hold.
pub fn scan_includes(
    base_findings: &Vec<Finding>,
    config_dir: &str,
    data_dir: &str,
    files: &Vec<FileSeen>,
) -> (r: Vec<IncludedFinding>)
    ensures
        text::views(r@) == included_upto(
            text::views(base_findings@),
            config_dir@,
            data_dir@,
            text::views(files@),
            base_findings@.len(),
        ),
{
    let ghost base = text::views(base_findings@);
    let mut out: Vec<IncludedFinding> = Vec::new();
    let mut i: usize = 0;
    assert(text::views(out@) =~= Seq::<IncludedView>::empty());
    while i < base_findings.len()
        invariant
            i <= base_findings@.len(),
            base == text::views(base_findings@),
            text::views(out@) == included_upto(
                base,
                config_dir@,
                data_dir@,
                text::views(files@),
                i as nat,
            ),
        decreases base_findings.len() - i,
    {
        let ghost before = text::views(out@);
        let ghost more = brought_in(
            base[i as int],
            config_dir@,
            data_dir@,
            text::views(files@),
        );
        assert(base[i as int] == base_findings@[i as int]@);
        assert(before + Seq::<IncludedView>::empty() =~= before);
        if let Finding::Include { arg, .. } = &base_findings[i] {
            if let Some(k) = resolve_include(arg.as_str(), config_dir, data_dir, files) {
                if let Some(bytes) = &files[k].content {
                    let inner = scan::scan(bytes.as_slice());
                    assert(text::views(inner@).len() == inner@.len());
                    let mut found = take_sensitive(arg.as_str(), files[k].path.as_str(), inner);
                    assert(text::views(found@) == more);
                    let ghost out0 = out@;
                    let ghost found0 = found@;
                    out.append(&mut found);
                    assert(text::views(out@) =~= text::views(out0) + text::views(found0));
                }
            }
        }
        i = i + 1;
    }
    out
}

/// Everything an included file is flagged for must be acknowledged.
proof fn sensitive_need_ack(arg: Seq<char>, file: Seq<char>, inner: Seq<FindingView>, n: nat)
    requires
        n <= inner.len(),
    ensures
        forall|k: int|
            0 <= k < sensitive_upto(arg, file, inner, n).len() ==> {
                let x = #[trigger] sensitive_upto(arg, file, inner, n)[k];
                x.finding.needs_ack() && x.include_arg == arg && x.file == file && inner.contains(
                    x.finding,
                )
            },
    decreases n,
{
    if n > 0 {
        sensitive_need_ack(arg, file, inner, (n - 1) as nat);
        assert(inner.contains(inner[n - 1]));
    }
}

/// The finding stands in the very file that a plain include directive among the first
/// `n` findings of the config resolves to, and must be acknowledged.
pub open spec fn is_grounded(
    x: IncludedView,
    base: Seq<FindingView>,
    config_dir: Seq<char>,
    data_dir: Seq<char>,
    files: Seq<FileSeenView>,
    n: nat,
) -> bool {
    &&& x.finding.needs_ack()
    &&& exists|i: int|
        0 <= i < n && #[trigger] base[i] is Include && base[i]->Include_arg == x.include_arg
    &&& match resolve(x.include_arg, config_dir, data_dir, files) {
        None => false,
        Some(f) => f.path == x.file && f.content is Some && scan::findings(
            f.content->0,
        ).contains(x.finding),
    }
}

/// The include scan reports only what must be acknowledged, only for plain include
/// directives of the config itself (never a suspect one), and only what stands in the
/// very file that the directive resolves to.
pub proof fn included_findings_are_grounded(
    base: Seq<FindingView>,
    config_dir: Seq<char>,
    data_dir: Seq<char>,
    files: Seq<FileSeenView>,
    n: nat,
)
    requires
        n <= base.len(),
    ensures
        forall|k: int|
            0 <= k < included_upto(base, config_dir, data_dir, files, n).len() ==> is_grounded(
                #[trigger] included_upto(base, config_dir, data_dir, files, n)[k],
                base,
                config_dir,
                data_dir,
                files,
                n,
            ),
    decreases n,
{
    if n > 0 {
        included_findings_are_grounded(base, config_dir, data_dir, files, (n - 1) as nat);
        let before = included_upto(base, config_dir, data_dir, files, (n - 1) as nat);
        let more = brought_in(base[n - 1], config_dir, data_dir, files);
        let all = before + more;
        if let FindingView::Include { arg, .. } = base[n - 1] {
            if let Some(file) = resolve(arg, config_dir, data_dir, files) {
                if let Some(bytes) = file.content {
                    sensitive_need_ack(
                        arg,
                        file.path,
                        scan::findings(bytes),
                        scan::findings(bytes).len(),
                    );
                }
            }
        }
        assert forall|k: int| 0 <= k < all.len() implies is_grounded(
            #[trigger] all[k],
            base,
            config_dir,
            data_dir,
            files,
            n,
        ) by {
            if k < before.len() {
                assert(all[k] == before[k]);
                assert(is_grounded(before[k], base, config_dir, data_dir, files, (n - 1) as nat));
            } else {
                assert(all[k] == more[k - before.len()]);
                assert(base[n - 1] is Include);
            }
        }
    }
}

// ---------------------------------------------------------------------------
// Reaching the tool
// ---------------------------------------------------------------------------

/// How an apply run reaches the tool.
#[derive(Debug, PartialEq, Eq)]
pub enum Invocation {
    /// Production: through pkexec. The absolute tool path must match the policy.
    Pkexec { tool: String },
    /// Debug builds only: the sibling tool spawned directly, against a fake directory.
    Dev { tool: String, dir: String },
}

pub enum InvocationView {
    Pkexec { tool: Seq<char> },
    Dev { tool: Seq<char>, dir: Seq<char> },
}

impl View for Invocation {
    type V = InvocationView;

    open spec fn view(&self) -> InvocationView {
        match *self {
            Invocation::Pkexec { tool } => InvocationView::Pkexec { tool: tool@ },
            Invocation::Dev { tool, dir } => InvocationView::Dev { tool: tool@, dir: dir@ },
        }
    }
}

impl InvocationView {
    /// The directory whose configs one-click apply may target.
    pub open spec fn config_dir(self) -> Seq<char> {
        match self {
            InvocationView::Pkexec { .. } => config_root(),
            InvocationView::Dev { dir, .. } => dir,
        }
    }
}

/// An optional invocation with its view.
pub open spec fn invocation_opt(r: Option<Invocation>) -> Option<InvocationView> {
    match r {
        Some(i) => Some(i@),
        None => None,
    }
}

impl Invocation {
    /// The directory whose `<name>.conf` files one-click apply may target.
    pub fn config_dir(&self) -> (r: &str)
        ensures
            r@ == self@.config_dir(),
    {
        match self {
            Invocation::Pkexec { .. } => prod_config_dir(),
            Invocation::Dev { dir, .. } => dir.as_str(),
        }
    }

    /// A copy of the invocation.
    pub fn copy(&self) -> (r: Invocation)
        ensures
            r@ == self@,
    {
        match self {
            Invocation::Pkexec { tool } => Invocation::Pkexec {
                tool: strings::copy(tool.as_str()),
            },
            Invocation::Dev { tool, dir } => Invocation::Dev {
                tool: strings::copy(tool.as_str()),
                dir: strings::copy(dir.as_str()),
            },
        }
    }
}

/// What one-click apply depends on around it.
#[derive(Debug)]
pub struct Surroundings {
    /// This is a debug build.
    pub debug: bool,
    /// The fake config directory asked for by the environment.
    pub dev_dir: Option<String>,
    /// The directory of the running executable.
    pub exe_dir: Option<String>,
    /// The tool stands beside the running executable.
    pub dev_tool_exists: bool,
    /// The packaged tool is installed.
    pub tool_exists: bool,
    /// pkexec is installed.
    pub pkexec_exists: bool,
}

/// How one-click apply works in the surroundings, if it does: the development way first,
/// in debug builds, then the packaged one.
pub open spec fn one_click_in(s: Surroundings) -> Option<InvocationView> {
    if s.debug && s.dev_dir is Some {
        if s.exe_dir is Some && s.dev_tool_exists {
            Some(
                InvocationView::Dev {
                    tool: paths::join(s.exe_dir->0@, "keydviz-apply"@),
                    dir: s.dev_dir->0@,
                },
            )
        } else {
            None
        }
    } else if s.tool_exists && s.pkexec_exists {
        Some(InvocationView::Pkexec { tool: "/usr/bin/keydviz-apply"@ })
    } else {
        None
    }
}

/// Detect whether one-click apply can work here, and how. None means that only
/// draft-then-install is offered.
pub fn one_click(s: &Surroundings) -> (r: Option<Invocation>)
    ensures
        invocation_opt(r) == one_click_in(*s),
{
    if s.debug {
        if let Some(dir) = &s.dev_dir {
            return match &s.exe_dir {
                None => None,
                Some(exe) => if s.dev_tool_exists {
                    Some(
                        Invocation::Dev {
                            tool: paths::join_path(exe.as_str(), "keydviz-apply"),
                            dir: strings::copy(dir.as_str()),
                        },
                    )
                } else {
                    None
                },
            };
        }
    }
    if s.tool_exists && s.pkexec_exists {
        Some(Invocation::Pkexec { tool: strings::copy("/usr/bin/keydviz-apply") })
    } else {
        None
    }
}

/// A release build never takes the development way.
pub proof fn release_build_uses_the_packaged_tool(s: Surroundings)
    requires
        !s.debug,
    ensures
        one_click_in(s) is Some <==> s.tool_exists && s.pkexec_exists,
        one_click_in(s) is Some ==> one_click_in(s)->0.config_dir() == config_root(),
{
}

/// The command line of an invocation: the program and its arguments.
pub open spec fn command_of(how: InvocationView) -> Seq<Seq<char>> {
    (match how {
        InvocationView::Pkexec { tool } => seq!["/usr/bin/pkexec"@, tool],
        InvocationView::Dev { tool, dir } => seq![tool, "--dev-dir"@, dir],
    }) + seq!["--timeout"@, text::decimal(TIMEOUT_SECS as nat)]
}

/// The command line of an invocation: the program and its arguments.
pub fn command_line(how: &Invocation) -> (r: Vec<String>)
    ensures
        text::texts(r@) == command_of(how@),
{
    let mut r: Vec<String> = Vec::new();
    match how {
        Invocation::Pkexec { tool } => {
            r.push(strings::copy("/usr/bin/pkexec"));
            r.push(strings::copy(tool.as_str()));
        },
        Invocation::Dev { tool, dir } => {
            r.push(strings::copy(tool.as_str()));
            r.push(strings::copy("--dev-dir"));
            r.push(strings::copy(dir.as_str()));
        },
    }
    r.push(strings::copy("--timeout"));
    r.push(strings::decimal(TIMEOUT_SECS));
    assert(text::texts(r@) =~= command_of(how@));
    r
}

// ---------------------------------------------------------------------------
// What is sent
// ---------------------------------------------------------------------------

/// Which privileged operation a run performs.
#[derive(Debug, Clone, Copy, PartialEq, Eq, Structural)]
pub enum ApplyOp {
    /// Write `<dir>/<name>.conf` with the bytes.
    Apply,
    /// Remove `<dir>/<name>.conf` (no payload, no scan).
    Delete,
}

/// Everything a run needs. For [`ApplyOp::Delete`], `bytes` is empty and `sensitive_ok`
/// is ignored.
#[derive(Debug)]
pub struct ApplyRequest {
    pub name: String,
    pub bytes: Vec<u8>,
    pub sensitive_ok: bool,
    pub op: ApplyOp,
    pub how: Invocation,
}

pub struct ApplyRequestView {
    pub name: Seq<char>,
    pub bytes: Seq<u8>,
    pub sensitive_ok: bool,
    pub op: ApplyOp,
    pub how: InvocationView,
}

impl View for ApplyRequest {
    type V = ApplyRequestView;

    open spec fn view(&self) -> ApplyRequestView {
        ApplyRequestView {
            name: self.name@,
            bytes: self.bytes@,
            sensitive_ok: self.sensitive_ok,
            op: self.op,
            how: self.how@,
        }
    }
}

/// The request line of a run.
pub open spec fn header_of(req: ApplyRequestView) -> Seq<char> {
    match req.op {
        ApplyOp::Delete => "delete "@ + req.name + "\n"@,
        ApplyOp::Apply => if req.sensitive_ok {
            "apply "@ + req.name + " "@ + text::decimal(req.bytes.len()) + " sensitive-ok\n"@
        } else {
            "apply "@ + req.name + " "@ + text::decimal(req.bytes.len()) + "\n"@
        },
    }
}

/// The request line, exactly as the tool expects it.
pub fn request_header(req: &ApplyRequest) -> (r: String)
    ensures
        r@ == header_of(req@),
{
    match req.op {
        ApplyOp::Delete => strings::cat3("delete ", req.name.as_str(), "\n"),
        ApplyOp::Apply => {
            let mut r = strings::cat3("apply ", req.name.as_str(), " ");
            r.append(strings::decimal(req.bytes.len() as u64).as_str());
            if req.sensitive_ok {
                r.append(" sensitive-ok\n");
            } else {
                r.append("\n");
            }
            r
        },
    }
}

/// Everything a run sends first.
pub open spec fn sent(req: ApplyRequestView) -> Seq<u8> {
    text::bytes(header_of(req)) + (if req.op == ApplyOp::Apply {
        req.bytes
    } else {
        Seq::empty()
    })
}

/// Everything a run sends first: the request line, and for an apply the exact bytes.
pub fn request_bytes(req: &ApplyRequest) -> (r: Vec<u8>)
    ensures
        r@ == sent(req@),
{
    let head = request_header(req);
    let src = head.as_str().as_bytes();
    let mut r = strings::slice_bytes(src, 0, src.len());
    assert(r@ =~= text::bytes(head@));
    if req.op == ApplyOp::Apply {
        let mut tail = strings::copy_bytes(&req.bytes);
        r.append(&mut tail);
    }
    assert(r@ =~= text::bytes(header_of(req@)) + (if req@.op == ApplyOp::Apply {
        req@.bytes
    } else {
        Seq::empty()
    }));
    r
}

/// A name that the tool accepts is one word.
proof fn valid_name_is_a_word(name: Seq<char>)
    requires
        names::is_valid_name(name),
    ensures
        name.len() > 0,
        forall|i: int| 0 <= i < name.len() ==> !text::is_white(#[trigger] name[i]),
{
    assert forall|i: int| 0 <= i < name.len() implies !text::is_white(#[trigger] name[i]) by {
        assert(names::name_char(name[i]));
    }
}

/// The tool reads back what the caller asked for: the line in front of the newline of an
/// apply request takes apart into the very name, length and acknowledgement.
pub proof fn apply_request_is_read_back(req: ApplyRequestView, line: Seq<char>)
    requires
        req.op == ApplyOp::Apply,
        names::is_valid_name(req.name),
        req.bytes.len() <= usize::MAX,
        header_of(req) == line.push('\n'),
    ensures
        tool::request_of(line) == (tool::RequestView {
            cmd: "apply"@,
            name: req.name,
            len: req.bytes.len(),
            sensitive_ok: req.sensitive_ok,
        }),
        req.bytes.len() <= names::MAX_CONFIG_BYTES ==> tool::request_refusal(
            tool::request_of(line),
        ) is None,
{
    reveal_strlit("apply ");
    reveal_strlit("apply");
    reveal_strlit(" ");
    reveal_strlit("\n");
    reveal_strlit(" sensitive-ok\n");
    reveal_strlit("sensitive-ok");
    let n = text::decimal(req.bytes.len());
    text::decimal_parses(req.bytes.len(), usize::MAX as nat);
    text::decimal_reads_back(req.bytes.len());
    valid_name_is_a_word(req.name);
    assert forall|i: int| 0 <= i < n.len() implies !text::is_white(#[trigger] n[i]) by {}
    assert(line == header_of(req).drop_last()) by {
        assert(line.push('\n').drop_last() =~= line);
    }
    if req.sensitive_ok {
        let d = n.push(' ') + "sensitive-ok"@;
        let c = req.name.push(' ') + d;
        assert(line =~= "apply"@.push(' ') + c);
        text::words_of_word("sensitive-ok"@);
        text::words_after_word(n, "sensitive-ok"@);
        text::words_after_word(req.name, d);
        text::words_after_word("apply"@, c);
        let w = text::words(line);
        assert(w =~= seq!["apply"@, req.name, n, "sensitive-ok"@]);
    } else {
        let c = req.name.push(' ') + n;
        assert(line =~= "apply"@.push(' ') + c);
        text::words_of_word(n);
        text::words_after_word(req.name, n);
        text::words_after_word("apply"@, c);
        let w = text::words(line);
        assert(w =~= seq!["apply"@, req.name, n]);
    }
}

/// The tool reads back a delete as well: the line in front of its newline takes apart
/// into the command and the very name, and is not refused.
pub proof fn delete_request_is_read_back(req: ApplyRequestView, line: Seq<char>)
    requires
        req.op == ApplyOp::Delete,
        names::is_valid_name(req.name),
        header_of(req) == line.push('\n'),
    ensures
        tool::request_of(line).cmd == "delete"@,
        tool::request_of(line).name == req.name,
        tool::request_refusal(tool::request_of(line)) is None,
{
    reveal_strlit("delete ");
    reveal_strlit("delete");
    reveal_strlit("apply");
    reveal_strlit("\n");
    valid_name_is_a_word(req.name);
    assert(line == header_of(req).drop_last()) by {
        assert(line.push('\n').drop_last() =~= line);
    }
    assert(line =~= "delete"@.push(' ') + req.name);
    text::words_of_word(req.name);
    text::words_after_word("delete"@, req.name);
    assert(text::words(line) =~= seq!["delete"@, req.name]);
    assert("apply"@.len() != "delete"@.len());
}

/// What confirming sends.
pub open spec fn confirmation(open: bool) -> Seq<u8> {
    if open {
        text::bytes("keep\n"@)
    } else {
        Seq::empty()
    }
}

/// This end stays open when the user backs out.
pub open spec fn stays_open(open: bool, busy: bool) -> bool {
    open && busy
}

/// This end of the tool's input.
#[derive(Debug, Clone, Copy, PartialEq, Eq, Structural)]
pub struct ApplyHandle {
    pub open: bool,
}

impl ApplyHandle {
    /// The user confirmed the keyboard works: what to send. Nothing goes out once this
    /// end is closed.
    pub fn keep(&self) -> (r: Vec<u8>)
        ensures
            r@ == confirmation(self.open),
    {
        if self.open {
            let src = "keep\n".as_bytes();
            let r = strings::slice_bytes(src, 0, src.len());
            assert(r@ =~= text::bytes("keep\n"@));
            r
        } else {
            Vec::new()
        }
    }

    /// The user backed out: close this end, so that the tool sees the end of input and
    /// reverts. While the request is still being written (`busy`) it stays open rather
    /// than block; nothing persists without a KEEP anyway.
    pub fn revert(&mut self, busy: bool)
        ensures
            final(self).open == stays_open(old(self).open, busy),
    {
        if !busy {
            self.open = false;
        }
    }
}

// ---------------------------------------------------------------------------
// What comes back
// ---------------------------------------------------------------------------

/// One protocol or process-level event. Exactly one terminal event ends every run.
#[derive(Debug, PartialEq, Eq)]
pub enum ApplyEvent {
    /// `finding <desc>`: advisory echo of the scan.
    Finding(String),
    /// `error <reason>`: refused, nothing written. Terminal.
    Refused(String),
    /// `applied <secs>`: written and reloaded; the dead-man window is open.
    Applied { secs: u64 },
    /// `kept`: the change is permanent. Terminal.
    Kept,
    /// `reverted <reason>`: prior state restored and reloaded. Terminal.
    Reverted(String),
    /// `revert-failed <why>`: the new config is still live. Terminal.
    RevertFailed(String),
    /// The user dismissed the authentication dialog. Terminal.
    AuthDismissed,
    /// Not authorized, or no agent in this session. Terminal.
    NotAuthorized,
    /// Spawn failure, an end without a verdict, or an unexplained exit. Terminal.
    Failed(String),
}

pub enum ApplyEventView {
    Finding(Seq<char>),
    Refused(Seq<char>),
    Applied { secs: nat },
    Kept,
    Reverted(Seq<char>),
    RevertFailed(Seq<char>),
    AuthDismissed,
    NotAuthorized,
    Failed(Seq<char>),
}

impl View for ApplyEvent {
    type V = ApplyEventView;

    open spec fn view(&self) -> ApplyEventView {
        match *self {
            ApplyEvent::Finding(s) => ApplyEventView::Finding(s@),
            ApplyEvent::Refused(s) => ApplyEventView::Refused(s@),
            ApplyEvent::Applied { secs } => ApplyEventView::Applied { secs: secs as nat },
            ApplyEvent::Kept => ApplyEventView::Kept,
            ApplyEvent::Reverted(s) => ApplyEventView::Reverted(s@),
            ApplyEvent::RevertFailed(s) => ApplyEventView::RevertFailed(s@),
            ApplyEvent::AuthDismissed => ApplyEventView::AuthDismissed,
            ApplyEvent::NotAuthorized => ApplyEventView::NotAuthorized,
            ApplyEvent::Failed(s) => ApplyEventView::Failed(s@),
        }
    }
}

impl ApplyEventView {
    /// The event ends the run.
    pub open spec fn is_terminal(self) -> bool {
        !(self is Finding || self is Applied)
    }
}

/// An optional event with its view.
pub open spec fn event_opt(r: Option<ApplyEvent>) -> Option<ApplyEventView> {
    match r {
        Some(e) => Some(e@),
        None => None,
    }
}

impl ApplyEvent {
    /// Terminal events end the run; after one, no further events arrive.
    pub fn is_terminal(&self) -> (r: bool)
        ensures
            r == self@.is_terminal(),
    {
        match self {
            ApplyEvent::Finding(_) => false,
            ApplyEvent::Applied { .. } => false,
            _ => true,
        }
    }
}

/// The event of a protocol line, where it is one.
pub open spec fn event_of(line: Seq<char>) -> Option<ApplyEventView> {
    if line == "kept"@ {
        Some(ApplyEventView::Kept)
    } else if let Some(d) = text::strip_prefix(line, "finding "@) {
        Some(ApplyEventView::Finding(d))
    } else if let Some(r) = text::strip_prefix(line, "error "@) {
        Some(ApplyEventView::Refused(r))
    } else if let Some(s) = text::strip_prefix(line, "applied "@) {
        match text::parse_number(text::trim(s), 10, u64::MAX as nat) {
            Some(secs) => Some(ApplyEventView::Applied { secs }),
            None => None,
        }
    } else if let Some(r) = text::strip_prefix(line, "reverted "@) {
        Some(ApplyEventView::Reverted(r))
    } else if let Some(w) = text::strip_prefix(line, "revert-failed "@) {
        Some(ApplyEventView::RevertFailed(w))
    } else {
        None
    }
}

/// Parse one protocol line. Unknown lines are skipped, and a run that ends without a
/// terminal line is mapped from the exit code instead.
pub fn parse_event(line: &str) -> (r: Option<ApplyEvent>)
    ensures
        event_opt(r) == event_of(line@),
{
    if strings::same(line, "kept") {
        return Some(ApplyEvent::Kept);
    }
    if let Some(d) = strings::strip_prefix(line, "finding ") {
        return Some(ApplyEvent::Finding(d));
    }
    if let Some(r) = strings::strip_prefix(line, "error ") {
        return Some(ApplyEvent::Refused(r));
    }
    if let Some(s) = strings::strip_prefix(line, "applied ") {
        return match strings::parse_number(strings::trim(s.as_str()).as_str(), 10, u64::MAX) {
            Some(secs) => Some(ApplyEvent::Applied { secs }),
            None => None,
        };
    }
    if let Some(r) = strings::strip_prefix(line, "reverted ") {
        return Some(ApplyEvent::Reverted(r));
    }
    if let Some(w) = strings::strip_prefix(line, "revert-failed ") {
        return Some(ApplyEvent::RevertFailed(w));
    }
    None
}

/// What the caller makes of the lines: the events up to and with the first terminal one,
/// and whether there was one.
pub open spec fn pumped(lines: Seq<Seq<char>>) -> (Seq<ApplyEventView>, bool)
    decreases lines.len(),
{
    if lines.len() == 0 {
        (Seq::empty(), false)
    } else {
        let (evs, seen) = pumped(lines.drop_last());
        if seen {
            (evs, seen)
        } else {
            match event_of(lines.last()) {
                None => (evs, false),
                Some(e) => (evs.push(e), e.is_terminal()),
            }
        }
    }
}

/// Turn protocol lines into events, up to the first terminal one rather than to the end,
/// so that a misbehaving tool cannot stall after the verdict is in. Says whether a
/// terminal event was seen; if not, the exit code decides.
pub fn pump(lines: &Vec<String>) -> (r: (Vec<ApplyEvent>, bool))
    ensures
        (text::views(r.0@), r.1) == pumped(text::texts(lines@)),
{
    let ghost all = text::texts(lines@);
    let mut evs: Vec<ApplyEvent> = Vec::new();
    let mut i: usize = 0;
    assert(text::views(evs@) =~= Seq::<ApplyEventView>::empty());
    while i < lines.len()
        invariant
            i <= lines@.len(),
            all == text::texts(lines@),
            (text::views(evs@), false) == pumped(all.subrange(0, i as int)),
        decreases lines.len() - i,
    {
        let ghost next = all.subrange(0, i + 1);
        assert(next.drop_last() =~= all.subrange(0, i as int));
        assert(next.last() == lines@[i as int]@);
        let ghost before = text::views(evs@);
        if let Some(ev) = parse_event(lines[i].as_str()) {
            let ghost e = ev@;
            let terminal = ev.is_terminal();
            evs.push(ev);
            assert(text::views(evs@) =~= before.push(e));
            if terminal {
                proof {
                    pumping_stops(all, i + 1);
                }
                return (evs, true);
            }
        }
        i = i + 1;
    }
    assert(all.subrange(0, i as int) =~= all);
    (evs, false)
}

/// Lines behind the verdict change nothing.
pub proof fn pumping_stops(lines: Seq<Seq<char>>, n: int)
    requires
        0 <= n <= lines.len(),
        pumped(lines.subrange(0, n)).1,
    ensures
        pumped(lines) == pumped(lines.subrange(0, n)),
    decreases lines.len(),
{
    if n < lines.len() {
        assert(lines.drop_last().subrange(0, n) =~= lines.subrange(0, n));
        pumping_stops(lines.drop_last(), n);
    } else {
        assert(lines.subrange(0, n) =~= lines);
    }
}

/// Lines may be pumped as they arrive: the events of all of them are those of the first
/// part and, where that held no verdict, those of the rest.
pub proof fn pumping_in_parts(a: Seq<Seq<char>>, b: Seq<Seq<char>>)
    ensures
        pumped(a + b) == (if pumped(a).1 {
            pumped(a)
        } else {
            (pumped(a).0 + pumped(b).0, pumped(b).1)
        }),
    decreases b.len(),
{
    let all = a + b;
    if b.len() == 0 {
        assert(all =~= a);
        assert(pumped(a).0 + pumped(b).0 =~= pumped(a).0);
    } else {
        let t = b.drop_last();
        pumping_in_parts(a, t);
        assert(all.drop_last() =~= a + t);
        assert(all.last() == b.last());
        if !pumped(a).1 && !pumped(t).1 && event_of(b.last()) is Some {
            let e = event_of(b.last())->0;
            assert((pumped(a).0 + pumped(t).0).push(e) =~= pumped(a).0 + pumped(t).0.push(e));
        }
    }
}

/// How the tool's process ended.
#[derive(Debug)]
pub enum ProcessEnd {
    /// With an exit code, or by a signal.
    Exited(Option<i32>),
    /// Its end could not be waited for.
    Lost(String),
}

pub enum ProcessEndView {
    Exited(Option<i32>),
    Lost(Seq<char>),
}

impl View for ProcessEnd {
    type V = ProcessEndView;

    open spec fn view(&self) -> ProcessEndView {
        match *self {
            ProcessEnd::Exited(c) => ProcessEndView::Exited(c),
            ProcessEnd::Lost(e) => ProcessEndView::Lost(e@),
        }
    }
}

/// The event of an exit without a verdict. pkexec owns 126 and 127; with any other code
/// the conversation broke, and no verdict is guessed.
pub open spec fn exit_event(code: Option<i32>) -> ApplyEventView {
    match code {
        Some(c) => if c == 126 {
            ApplyEventView::AuthDismissed
        } else if c == 127 {
            ApplyEventView::NotAuthorized
        } else {
            ApplyEventView::Failed(
                "apply tool exited "@ + text::signed_decimal(c as int) + " without a verdict"@,
            )
        },
        None => ApplyEventView::Failed("apply tool killed by a signal"@),
    }
}

/// Map a verdict-less exit to its event.
pub fn map_exit(code: Option<i32>) -> (r: ApplyEvent)
    ensures
        r@ == exit_event(code),
{
    match code {
        Some(c) => if c == 126 {
            ApplyEvent::AuthDismissed
        } else if c == 127 {
            ApplyEvent::NotAuthorized
        } else {
            ApplyEvent::Failed(
                strings::cat3(
                    "apply tool exited ",
                    strings::signed_decimal(c as i64).as_str(),
                    " without a verdict",
                ),
            )
        },
        None => ApplyEvent::Failed(strings::copy("apply tool killed by a signal")),
    }
}

/// The event that ends a run whose lines held no verdict.
pub open spec fn closing_event(saw_verdict: bool, end: ProcessEndView) -> Option<ApplyEventView> {
    if saw_verdict {
        None
    } else {
        match end {
            ProcessEndView::Exited(c) => Some(exit_event(c)),
            ProcessEndView::Lost(e) => Some(ApplyEventView::Failed("wait: "@ + e)),
        }
    }
}

/// The event that ends a run once its process is gone, where no line has ended it.
pub fn finish_run(saw_verdict: bool, end: ProcessEnd) -> (r: Option<ApplyEvent>)
    ensures
        event_opt(r) == closing_event(saw_verdict, end@),
{
    if saw_verdict {
        return None;
    }
    match end {
        ProcessEnd::Exited(c) => Some(map_exit(c)),
        ProcessEnd::Lost(e) => Some(ApplyEvent::Failed(strings::cat("wait: ", e.as_str()))),
    }
}

/// The events of a whole run.
pub open spec fn conversation(lines: Seq<Seq<char>>, end: ProcessEndView) -> Seq<ApplyEventView> {
    let (evs, seen) = pumped(lines);
    match closing_event(seen, end) {
        None => evs,
        Some(e) => evs.push(e),
    }
}

proof fn pumped_ends_at_verdict(lines: Seq<Seq<char>>)
    ensures
        ({
            let (evs, seen) = pumped(lines);
            &&& seen ==> evs.len() > 0 && evs.last().is_terminal()
            &&& forall|i: int|
                0 <= i < evs.len() && (seen ==> i < evs.len() - 1) ==> !(
                #[trigger] evs[i]).is_terminal()
        }),
    decreases lines.len(),
{
    if lines.len() > 0 {
        pumped_ends_at_verdict(lines.drop_last());
    }
}

/// Whatever the tool prints and however it ends, a run has exactly one terminal event,
/// and it is the last.
pub proof fn every_run_ends_once(lines: Seq<Seq<char>>, end: ProcessEndView)
    ensures
        ({
            let evs = conversation(lines, end);
            &&& evs.len() > 0
            &&& evs.last().is_terminal()
            &&& forall|i: int| 0 <= i < evs.len() - 1 ==> !(#[trigger] evs[i]).is_terminal()
        }),
{
    pumped_ends_at_verdict(lines);
}

/// A run is reported as kept only where the tool said so.
pub proof fn kept_only_by_the_tools_word(lines: Seq<Seq<char>>, end: ProcessEndView)
    requires
        conversation(lines, end).contains(ApplyEventView::Kept),
    ensures
        lines.contains("kept"@),
{
    let evs = conversation(lines, end);
    let i = choose|i: int| 0 <= i < evs.len() && evs[i] == ApplyEventView::Kept;
    let (said, seen) = pumped(lines);
    assert(i < said.len()) by {
        if i >= said.len() {
            assert(closing_event(seen, end) is Some);
        }
    }
    events_come_from_lines(lines, i);
    let k = choose|k: int|
        0 <= k < lines.len() && event_of(#[trigger] lines[k]) == Some(ApplyEventView::Kept);
    assert(lines[k] == "kept"@);
}

proof fn events_come_from_lines(lines: Seq<Seq<char>>, i: int)
    requires
        0 <= i < pumped(lines).0.len(),
    ensures
        exists|k: int|
            0 <= k < lines.len() && event_of(#[trigger] lines[k]) == Some(pumped(lines).0[i]),
    decreases lines.len(),
{
    let t = lines.drop_last();
    if i < pumped(t).0.len() {
        events_come_from_lines(t, i);
        let k = choose|k: int|
            0 <= k < t.len() && event_of(#[trigger] t[k]) == Some(pumped(t).0[i]);
        assert(lines[k] == t[k]);
    } else {
        assert(lines[lines.len() - 1] == lines.last());
    }
}

/// The caller understands every line that the tool says.
pub proof fn tool_lines_are_understood(s: Seq<char>, secs: nat)
    requires
        secs <= u64::MAX,
    ensures
        event_of("kept"@) == Some(ApplyEventView::Kept),
        event_of("finding "@ + s) == Some(ApplyEventView::Finding(s)),
        event_of("error "@ + s) == Some(ApplyEventView::Refused(s)),
        event_of("applied "@ + text::decimal(secs)) == Some(ApplyEventView::Applied { secs }),
        event_of("reverted "@ + s) == Some(ApplyEventView::Reverted(s)),
        event_of("revert-failed "@ + s) == Some(ApplyEventView::RevertFailed(s)),
{
    reveal_strlit("kept");
    reveal_strlit("finding ");
    reveal_strlit("error ");
    reveal_strlit("applied ");
    reveal_strlit("reverted ");
    reveal_strlit("revert-failed ");
    prefix_strips("finding "@, s);
    prefix_strips("error "@, s);
    prefix_strips("applied "@, text::decimal(secs));
    prefix_strips("reverted "@, s);
    prefix_strips("revert-failed "@, s);
    first_letters_differ("error "@ + s, "finding "@);
    let a = "applied "@ + text::decimal(secs);
    first_letters_differ(a, "finding "@);
    first_letters_differ(a, "error "@);
    let d = text::decimal(secs);
    text::decimal_parses(secs, u64::MAX as nat);
    text::decimal_reads_back(secs);
    assert(!text::is_white(d[0]) && !text::is_white(d[d.len() - 1]));
    text::trim_of_tight(d);
    let r = "reverted "@ + s;
    first_letters_differ(r, "finding "@);
    first_letters_differ(r, "error "@);
    first_letters_differ(r, "applied "@);
    let w = "revert-failed "@ + s;
    first_letters_differ(w, "finding "@);
    first_letters_differ(w, "error "@);
    first_letters_differ(w, "applied "@);
    assert(!text::starts_with(w, "reverted "@)) by {
        assert(w[6] == '-');
        if text::starts_with(w, "reverted "@) {
            assert(w.subrange(0, "reverted "@.len() as int)[6] == w[6]);
        }
    }
}

proof fn prefix_strips(p: Seq<char>, s: Seq<char>)
    ensures
        text::strip_prefix(p + s, p) == Some(s),
{
    assert((p + s).subrange(0, p.len() as int) =~= p);
    assert((p + s).subrange(p.len() as int, (p + s).len() as int) =~= s);
}

proof fn first_letters_differ(line: Seq<char>, p: Seq<char>)
    requires
        line.len() > 0,
        p.len() > 0,
        line[0] != p[0],
    ensures
        text::strip_prefix(line, p) is None,
{
    if text::starts_with(line, p) {
        assert(line.subrange(0, p.len() as int)[0] == line[0]);
    }
}

// ---------------------------------------------------------------------------
// What both ends agree on
// ---------------------------------------------------------------------------

/// Nothing but the user's confirmation confirms: it is sent while this end is open, and
/// nothing is once the user backed out; backing out closes this end unless the request is
/// still being written, and never opens it.
pub proof fn backing_out_confirms_nothing(open: bool, busy: bool)
    ensures
        open ==> confirmation(open) == text::bytes("keep\n"@),
        !open ==> confirmation(open).len() == 0,
        stays_open(open, busy) ==> open,
        !busy ==> !stays_open(open, busy),
        open && busy ==> stays_open(open, busy),
{
}

/// What is sent is the request line and then the exact bytes of the config; a delete sends
/// its line alone.
pub proof fn the_config_is_sent_as_it_is(req: ApplyRequestView)
    ensures
        req.op == ApplyOp::Apply ==> text::ends_with(sent(req), req.bytes) && sent(req).len()
            == text::bytes(header_of(req)).len() + req.bytes.len(),
        req.op == ApplyOp::Delete ==> sent(req) == text::bytes(header_of(req)),
        text::starts_with(sent(req), text::bytes(header_of(req))),
        header_of(req).last() == '\n',
{
    reveal_strlit("\n");
    reveal_strlit(" sensitive-ok\n");
    let head = text::bytes(header_of(req));
    assert(sent(req).subrange(0, head.len() as int) =~= head);
    if req.op == ApplyOp::Apply {
        assert(sent(req).subrange(head.len() as int, sent(req).len() as int) =~= req.bytes);
    } else {
        assert(sent(req) =~= head);
    }
}

/// The tool is started for the directory that the caller means: reading the arguments that
/// it is started with, as the tool does, gives that directory, a reload of keyd, and the
/// window that the caller counts down.
pub proof fn the_tool_works_where_the_caller_means(how: InvocationView)
    ensures
        ({
            let line = command_of(how);
            &&& how matches InvocationView::Pkexec { tool } ==> {
                &&& line[0] == "/usr/bin/pkexec"@ && line[1] == tool
                &&& tool::opts_from(
                    line.subrange(2, line.len() as int),
                    false,
                    tool::default_opts(),
                ) == Ok::<tool::OptsView, Seq<char>>(
                    (tool::OptsView { dir: how.config_dir(), reload: true, timeout: 30 }),
                )
            }
            &&& how matches InvocationView::Dev { tool, dir } ==> {
                &&& line[0] == tool
                &&& how.config_dir() == dir
                &&& tool::opts_from(
                    line.subrange(1, line.len() as int),
                    true,
                    tool::default_opts(),
                ) == Ok::<tool::OptsView, Seq<char>>(
                    (tool::OptsView { dir, reload: true, timeout: 30 }),
                )
            }
        }),
{
    reveal_strlit("--timeout");
    reveal_strlit("--dev-dir");
    reveal_strlit("--dev-no-reload");
    reveal_with_fuel(tool::opts_from, 3);
    text::decimal_parses(30, u64::MAX as nat);
    assert("--dev-dir"@[2] != "--timeout"@[2]);
    let line = command_of(how);
    let secs = text::decimal(30);
    let asked = seq!["--timeout"@, secs];
    assert(asked.subrange(1, 2).subrange(1, 1) =~= Seq::<Seq<char>>::empty());
    assert(asked.subrange(1, 2)[0] == secs);
    match how {
        InvocationView::Pkexec { tool } => {
            assert(line.subrange(2, line.len() as int) =~= asked);
        },
        InvocationView::Dev { tool, dir } => {
            let args = seq!["--dev-dir"@, dir, "--timeout"@, secs];
            assert(line.subrange(1, line.len() as int) =~= args);
            assert(args.subrange(1, 4).subrange(1, 3) =~= asked);
            assert(args.subrange(1, 4)[0] == dir);
        },
    }
}

/// In a debug build that was asked for a directory of its own, only the tool beside the
/// program is used, and only against that directory; in every other case only the packaged
/// one, through the system's authentication, against keyd's own.
pub proof fn a_run_reaches_the_right_tool(s: Surroundings)
    ensures
        ({
            let how = one_click_in(s);
            let dev = s.debug && s.dev_dir is Some;
            &&& dev ==> (how is Some <==> s.exe_dir is Some && s.dev_tool_exists)
            &&& dev && how is Some ==> how->0 is Dev && how->0.config_dir() == s.dev_dir->0@
            &&& !dev ==> (how is Some <==> s.tool_exists && s.pkexec_exists)
            &&& !dev && how is Some ==> how->0 == (InvocationView::Pkexec {
                tool: "/usr/bin/keydviz-apply"@,
            }) && how->0.config_dir() == "/etc/keyd"@
        }),
{
}

proof fn sensitive_are_taken(
    arg: Seq<char>,
    file: Seq<char>,
    inner: Seq<FindingView>,
    n: nat,
    k: int,
)
    requires
        0 <= k < n <= inner.len(),
        inner[k].needs_ack(),
    ensures
        sensitive_upto(arg, file, inner, n).contains(
            (IncludedView { include_arg: arg, file, finding: inner[k] }),
        ),
    decreases n,
{
    let before = sensitive_upto(arg, file, inner, (n - 1) as nat);
    let all = sensitive_upto(arg, file, inner, n);
    let x = IncludedView { include_arg: arg, file, finding: inner[k] };
    if k < n - 1 {
        sensitive_are_taken(arg, file, inner, (n - 1) as nat, k);
        let i = choose|i: int| 0 <= i < before.len() && before[i] == x;
        assert(all[i] == x);
    } else {
        assert(all[all.len() - 1] == x);
    }
}

/// Nothing sensitive hides in an include: whatever must be acknowledged in the file that an
/// include directive of the config pulls in is reported, with the directive and that file.
pub proof fn every_included_danger_is_reported(
    base: Seq<FindingView>,
    config_dir: Seq<char>,
    data_dir: Seq<char>,
    files: Seq<FileSeenView>,
    n: nat,
    i: int,
    k: int,
)
    requires
        0 <= i < n <= base.len(),
        base[i] is Include,
        resolve(base[i]->Include_arg, config_dir, data_dir, files) is Some,
        resolve(base[i]->Include_arg, config_dir, data_dir, files)->0.content is Some,
        ({
            let bytes = resolve(base[i]->Include_arg, config_dir, data_dir, files)->0.content->0;
            0 <= k < scan::findings(bytes).len() && scan::findings(bytes)[k].needs_ack()
        }),
    ensures
        ({
            let arg = base[i]->Include_arg;
            let f = resolve(arg, config_dir, data_dir, files)->0;
            included_upto(base, config_dir, data_dir, files, n).contains(
                (IncludedView {
                    include_arg: arg,
                    file: f.path,
                    finding: scan::findings(f.content->0)[k],
                }),
            )
        }),
    decreases n,
{
    let arg = base[i]->Include_arg;
    let f = resolve(arg, config_dir, data_dir, files)->0;
    let inner = scan::findings(f.content->0);
    let x = IncludedView { include_arg: arg, file: f.path, finding: inner[k] };
    let before = included_upto(base, config_dir, data_dir, files, (n - 1) as nat);
    let all = included_upto(base, config_dir, data_dir, files, n);
    if i < n - 1 {
        every_included_danger_is_reported(
            base,
            config_dir,
            data_dir,
            files,
            (n - 1) as nat,
            i,
            k,
        );
        let j = choose|j: int| 0 <= j < before.len() && before[j] == x;
        assert(all[j] == x);
    } else {
        sensitive_are_taken(arg, f.path, inner, inner.len(), k);
        let more = brought_in(base[i], config_dir, data_dir, files);
        let j = choose|j: int| 0 <= j < more.len() && more[j] == x;
        assert(all[before.len() + j] == x);
    }
}

/// File `i` is the first seen at the path.
pub open spec fn is_first_seen(files: Seq<FileSeenView>, path: Seq<char>, i: int) -> bool {
    &&& 0 <= i < files.len()
    &&& files[i].path == path
    &&& forall|j: int| 0 <= j < i ==> (#[trigger] files[j]).path != path
}

/// No file was seen at the path.
pub open spec fn is_unseen(files: Seq<FileSeenView>, path: Seq<char>) -> bool {
    forall|j: int| 0 <= j < files.len() ==> (#[trigger] files[j]).path != path
}

proof fn seen_at_is_first(files: Seq<FileSeenView>, path: Seq<char>)
    ensures
        forall|i: int| #[trigger] is_first_seen(files, path, i) ==> seen_at(files, path) == Some(
            files[i],
        ),
        is_unseen(files, path) ==> seen_at(files, path) is None,
    decreases files.len(),
{
    if files.len() > 0 {
        let t = files.drop_last();
        seen_at_is_first(t, path);
        assert forall|i: int| #[trigger] is_first_seen(files, path, i) implies seen_at(files, path)
            == Some(files[i]) by {
            if i < t.len() {
                assert forall|j: int| 0 <= j < i implies (#[trigger] t[j]).path != path by {
                    assert(t[j] == files[j]);
                }
                assert(is_first_seen(t, path, i));
            } else {
                assert forall|j: int| 0 <= j < t.len() implies (#[trigger] t[j]).path != path by {
                    assert(t[j] == files[j]);
                }
                assert(is_unseen(t, path));
            }
        }
        if is_unseen(files, path) {
            assert forall|j: int| 0 <= j < t.len() implies (#[trigger] t[j]).path != path by {
                assert(t[j] == files[j]);
            }
            assert(files[files.len() - 1].path != path);
        }
    }
}

/// An include is the file beside the config where there is one, and else the one in keyd's
/// own directory; it is none only where neither is there.
pub proof fn an_include_is_found_beside_the_config_first(
    arg: Seq<char>,
    config_dir: Seq<char>,
    data_dir: Seq<char>,
    files: Seq<FileSeenView>,
    i: int,
)
    ensures
        is_first_seen(files, paths::join(config_dir, arg), i) ==> resolve(
            arg,
            config_dir,
            data_dir,
            files,
        ) == Some(files[i]),
        is_unseen(files, paths::join(config_dir, arg)) && is_first_seen(
            files,
            paths::join(data_dir, arg),
            i,
        ) ==> resolve(arg, config_dir, data_dir, files) == Some(files[i]),
        is_unseen(files, paths::join(config_dir, arg)) && is_unseen(
            files,
            paths::join(data_dir, arg),
        ) ==> resolve(arg, config_dir, data_dir, files) is None,
{
    seen_at_is_first(files, paths::join(config_dir, arg));
    seen_at_is_first(files, paths::join(data_dir, arg));
}

/// Every place where an include may stand is looked at: beside the config, and in keyd's own
/// directory.
pub proof fn every_place_of_an_include_is_looked_at(
    base: Seq<FindingView>,
    config_dir: Seq<char>,
    data_dir: Seq<char>,
    n: nat,
    i: int,
)
    requires
        0 <= i < n <= base.len(),
        base[i] is Include,
    ensures
        candidates_upto(base, config_dir, data_dir, n).contains(
            paths::join(config_dir, base[i]->Include_arg),
        ),
        candidates_upto(base, config_dir, data_dir, n).contains(
            paths::join(data_dir, base[i]->Include_arg),
        ),
    decreases n,
{
    let before = candidates_upto(base, config_dir, data_dir, (n - 1) as nat);
    let all = candidates_upto(base, config_dir, data_dir, n);
    let a = paths::join(config_dir, base[i]->Include_arg);
    let b = paths::join(data_dir, base[i]->Include_arg);
    if i < n - 1 {
        every_place_of_an_include_is_looked_at(base, config_dir, data_dir, (n - 1) as nat, i);
        let x = choose|x: int| 0 <= x < before.len() && before[x] == a;
        let y = choose|y: int| 0 <= y < before.len() && before[y] == b;
        assert(all[x] == a && all[y] == b);
    } else {
        assert(all[all.len() - 2] == a && all[all.len() - 1] == b);
    }
}

/// Each line is taken for what it says: one that is an event is that event, the one that
/// ends the run ends it, and one that is none is passed over. A run without a verdict is
/// taken for what its end says: a dismissed or refused authentication by the code that
/// stands for it, and a failure otherwise.
pub proof fn each_line_is_its_event(line: Seq<char>, code: i32, why: Seq<char>)
    ensures
        event_of(line) is Some ==> pumped(seq![line]) == (
            seq![event_of(line)->0],
            event_of(line)->0.is_terminal(),
        ),
        event_of(line) is None ==> pumped(seq![line]) == (Seq::<ApplyEventView>::empty(), false),
        closing_event(true, ProcessEndView::Exited(Some(code))) is None,
        closing_event(false, ProcessEndView::Exited(Some(126)))
            == Some(ApplyEventView::AuthDismissed),
        closing_event(false, ProcessEndView::Exited(Some(127)))
            == Some(ApplyEventView::NotAuthorized),
        code != 126 && code != 127 ==> closing_event(
            false,
            ProcessEndView::Exited(Some(code)),
        ) is Some && closing_event(false, ProcessEndView::Exited(Some(code)))->0 is Failed,
        closing_event(false, ProcessEndView::Exited(None)) is Some && closing_event(
            false,
            ProcessEndView::Exited(None),
        )->0 is Failed,
        closing_event(false, ProcessEndView::Lost(why)) == Some(
            ApplyEventView::Failed("wait: "@ + why),
        ),
{
    let one = seq![line];
    assert(one.drop_last() =~= Seq::<Seq<char>>::empty());
    assert(one.last() == line);
    assert(pumped(one.drop_last()) == (Seq::<ApplyEventView>::empty(), false));
    if event_of(line) is Some {
        assert(pumped(one).0 =~= seq![event_of(line)->0]);
    }
}

/// An exit without a verdict is never taken for one: a dismissed and a refused password are
/// told apart from each other and from a tool that broke, whose exit is told.
pub proof fn an_exit_is_no_verdict(code: Option<i32>)
    ensures
        code == Some(126i32) ==> exit_event(code) is AuthDismissed,
        code == Some(127i32) ==> exit_event(code) is NotAuthorized,
        code is Some && code->0 != 126 && code->0 != 127 ==> exit_event(code)
            == ApplyEventView::Failed(
            "apply tool exited "@ + text::signed_decimal(code->0 as int) + " without a verdict"@,
        ),
        code is None ==> exit_event(code) == ApplyEventView::Failed(
            "apply tool killed by a signal"@,
        ),
{
}

} // verus!
