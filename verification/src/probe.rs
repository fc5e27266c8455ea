//! What the installed keyd can do, from what its commands printed. A capability that
//! cannot be confirmed counts as absent.

use crate::strings;
use crate::text;
use vstd::prelude::*;

verus! {

/// How a command ended.
#[derive(Debug)]
pub struct CommandOutput {
    pub success: bool,
    pub stdout: Vec<u8>,
}

/// What the commands gave; none where one could not be run.
#[derive(Debug)]
pub struct ProbeInput {
    /// `keyd --version`.
    pub version: Option<CommandOutput>,
    /// `keyd check` accepted a config that any keyd must accept.
    pub check: bool,
    /// `keyd list-keys`.
    pub keys: Option<CommandOutput>,
    /// Which of the places for the control socket exist, in their order.
    pub sockets: Vec<bool>,
}

/// What the installed keyd can do.
#[derive(Debug, PartialEq, Eq)]
pub struct KeydProbe {
    /// What `keyd --version` printed. None: no keyd.
    pub version: Option<String>,
    /// `keyd check` exists and validates.
    pub check: bool,
    /// Valid key names. Empty if unavailable.
    pub keys: Vec<String>,
    /// keyd's control socket, if present.
    pub socket: Option<String>,
}

pub struct KeydProbeView {
    pub version: Option<Seq<char>>,
    pub check: bool,
    pub keys: Seq<Seq<char>>,
    pub socket: Option<Seq<char>>,
}

impl View for KeydProbe {
    type V = KeydProbeView;

    open spec fn view(&self) -> KeydProbeView {
        KeydProbeView {
            version: text::opt(self.version),
            check: self.check,
            keys: text::texts(self.keys@),
            socket: text::opt(self.socket),
        }
    }
}

impl Default for KeydProbe {
    fn default() -> (r: KeydProbe)
        ensures
            r@ == absent(),
    {
        let r = KeydProbe { version: None, check: false, keys: Vec::new(), socket: None };
        assert(r@.keys =~= Seq::<Seq<char>>::empty());
        r
    }
}

/// No keyd at all.
pub open spec fn absent() -> KeydProbeView {
    KeydProbeView { version: None, check: false, keys: Seq::empty(), socket: None }
}

/// The version in what was printed, if anything was.
pub open spec fn version_in(printed: Seq<char>) -> Option<Seq<char>> {
    if text::trim(printed).len() > 0 {
        Some(text::trim(printed))
    } else {
        None
    }
}

/// The version, where one was printed.
pub open spec fn version_of(out: Option<CommandOutput>) -> Option<Seq<char>> {
    match out {
        None => None,
        Some(o) => if o.success {
            version_in(strings::lossy_text(o.stdout@))
        } else {
            None
        },
    }
}

/// The lines without white space at their ends, and without those that are empty then.
pub open spec fn trimmed_lines(lines: Seq<Seq<char>>) -> Seq<Seq<char>>
    decreases lines.len(),
{
    if lines.len() == 0 {
        Seq::empty()
    } else {
        let before = trimmed_lines(lines.drop_last());
        let last = text::trim(lines.last());
        if last.len() > 0 {
            before.push(last)
        } else {
            before
        }
    }
}

/// The key names printed.
pub open spec fn keys_of(out: Option<CommandOutput>) -> Seq<Seq<char>> {
    match out {
        None => Seq::empty(),
        Some(o) => if o.success {
            trimmed_lines(text::lines(strings::lossy_text(o.stdout@)))
        } else {
            Seq::empty()
        },
    }
}

/// The control socket: the first of its places that exists.
pub open spec fn socket_of(present: Seq<bool>) -> Option<Seq<char>> {
    if present.len() > 0 && present[0] {
        Some("/run/keyd.socket"@)
    } else if present.len() > 1 && present[1] {
        Some("/var/run/keyd.socket"@)
    } else {
        None
    }
}

/// The version in what was printed, if anything was.
pub fn read_version(printed: &str) -> (r: Option<String>)
    ensures
        text::opt(r) == version_in(printed@),
{
    let v = strings::trim(printed);
    if v.as_str().is_empty() {
        None
    } else {
        Some(v)
    }
}

/// The key names in what was printed.
pub fn read_keys(printed: &str) -> (r: Vec<String>)
    ensures
        text::texts(r@) == trimmed_lines(text::lines(printed@)),
{
    let lines = strings::lines(printed);
    let ghost all = text::lines(printed@);
    assert(lines@.len() == all.len());
    let mut r: Vec<String> = Vec::new();
    let mut i: usize = 0;
    assert(text::texts(r@) =~= Seq::<Seq<char>>::empty());
    while i < lines.len()
        invariant
            i <= lines@.len(),
            text::texts(lines@) == all,
            text::texts(r@) == trimmed_lines(all.subrange(0, i as int)),
        decreases lines.len() - i,
    {
        let ghost next = all.subrange(0, i + 1);
        assert(next.drop_last() =~= all.subrange(0, i as int));
        assert(next.last() == lines@[i as int]@);
        let line = strings::trim(lines[i].as_str());
        if !line.as_str().is_empty() {
            let ghost before = text::texts(r@);
            let ghost lv = line@;
            r.push(line);
            assert(text::texts(r@) =~= before.push(lv));
        }
        i = i + 1;
    }
    assert(all.subrange(0, i as int) =~= all);
    r
}

/// The one-line summary.
pub open spec fn summary_of(p: KeydProbeView) -> Seq<char> {
    "version: "@ + (match p.version {
        Some(v) => v,
        None => "(no keyd in PATH)"@,
    }) + "  check: "@ + (if p.check {
        "ok"@
    } else {
        "UNAVAILABLE"@
    }) + "  list-keys: "@ + text::decimal(p.keys.len()) + " names  socket: "@ + (match p.socket {
        Some(s) => s,
        None => "(none)"@,
    })
}

impl KeydProbe {
    /// Read what the commands gave. Each capability degrades on its own.
    pub fn run(seen: &ProbeInput) -> (r: KeydProbe)
        ensures
            r@ == (KeydProbeView {
                version: version_of(seen.version),
                check: seen.check,
                keys: keys_of(seen.keys),
                socket: socket_of(seen.sockets@),
            }),
    {
        let version = match &seen.version {
            None => None,
            Some(o) => if o.success {
                read_version(strings::from_utf8_lossy(o.stdout.as_slice()).as_str())
            } else {
                None
            },
        };
        let mut keys: Vec<String> = Vec::new();
        assert(text::texts(keys@) =~= Seq::<Seq<char>>::empty());
        if let Some(o) = &seen.keys {
            if o.success {
                keys = read_keys(strings::from_utf8_lossy(o.stdout.as_slice()).as_str());
            }
        }
        let socket = if seen.sockets.len() > 0 && seen.sockets[0] {
            Some(strings::copy("/run/keyd.socket"))
        } else if seen.sockets.len() > 1 && seen.sockets[1] {
            Some(strings::copy("/var/run/keyd.socket"))
        } else {
            None
        };
        KeydProbe { version, check: seen.check, keys, socket }
    }

    /// One-line human summary.
    pub fn summary(&self) -> (r: String)
        ensures
            r@ == summary_of(self@),
    {
        let mut r = strings::copy("version: ");
        match &self.version {
            Some(v) => r.append(v.as_str()),
            None => r.append("(no keyd in PATH)"),
        }
        r.append("  check: ");
        if self.check {
            r.append("ok");
        } else {
            r.append("UNAVAILABLE");
        }
        r.append("  list-keys: ");
        assert(text::texts(self.keys@).len() == self.keys@.len());
        r.append(strings::decimal(self.keys.len() as u64).as_str());
        r.append(" names  socket: ");
        match &self.socket {
            Some(s) => r.append(s.as_str()),
            None => r.append("(none)"),
        }
        r
    }
}

/// Without keyd every capability is absent.
pub proof fn no_keyd_means_nothing(seen: ProbeInput)
    requires
        seen.version is None,
        !seen.check,
        seen.keys is None,
        seen.sockets@.len() == 0,
    ensures
        version_of(seen.version) is None,
        keys_of(seen.keys) == Seq::<Seq<char>>::empty(),
        socket_of(seen.sockets@) is None,
{
}

/// The summary is one line, where the version is.
pub proof fn summary_is_one_line(p: KeydProbeView)
    requires
        p.version is Some ==> !p.version->0.contains('\n'),
        p.socket is Some ==> !p.socket->0.contains('\n'),
    ensures
        !summary_of(p).contains('\n'),
{
    reveal_strlit("version: ");
    reveal_strlit("(no keyd in PATH)");
    reveal_strlit("  check: ");
    reveal_strlit("ok");
    reveal_strlit("UNAVAILABLE");
    reveal_strlit("  list-keys: ");
    reveal_strlit(" names  socket: ");
    reveal_strlit("(none)");
    text::decimal_reads_back(p.keys.len());
    let v = match p.version {
        Some(v) => v,
        None => "(no keyd in PATH)"@,
    };
    let c = if p.check {
        "ok"@
    } else {
        "UNAVAILABLE"@
    };
    let d = text::decimal(p.keys.len());
    let s = match p.socket {
        Some(s) => s,
        None => "(none)"@,
    };
    let a1 = "version: "@ + v;
    no_newline_joins("version: "@, v);
    let a2 = a1 + "  check: "@;
    no_newline_joins(a1, "  check: "@);
    let a3 = a2 + c;
    no_newline_joins(a2, c);
    let a4 = a3 + "  list-keys: "@;
    no_newline_joins(a3, "  list-keys: "@);
    let a5 = a4 + d;
    assert forall|i: int| 0 <= i < d.len() implies d[i] != '\n' by {}
    no_newline_joins(a4, d);
    let a6 = a5 + " names  socket: "@;
    no_newline_joins(a5, " names  socket: "@);
    no_newline_joins(a6, s);
}

proof fn no_newline_joins(a: Seq<char>, b: Seq<char>)
    requires
        !a.contains('\n'),
        !b.contains('\n'),
    ensures
        !(a + b).contains('\n'),
{
    assert forall|i: int| 0 <= i < (a + b).len() implies (a + b)[i] != '\n' by {
        if i < a.len() {
            assert(a.contains(a[i]));
        } else {
            assert(b.contains(b[i - a.len()]));
        }
    }
}

// ---------------------------------------------------------------------------
// What is confirmed
// ---------------------------------------------------------------------------

proof fn trimmed_lines_hold(lines: Seq<Seq<char>>, x: Seq<char>)
    ensures
        trimmed_lines(lines).contains(x) <==> x.len() > 0 && exists|i: int|
            0 <= i < lines.len() && text::trim(#[trigger] lines[i]) == x,
    decreases lines.len(),
{
    if lines.len() > 0 {
        let t = lines.drop_last();
        let before = trimmed_lines(t);
        let all = trimmed_lines(lines);
        trimmed_lines_hold(t, x);
        if before.contains(x) {
            let i = choose|i: int| 0 <= i < before.len() && before[i] == x;
            assert(all[i] == x);
            let k = choose|k: int| 0 <= k < t.len() && text::trim(#[trigger] t[k]) == x;
            assert(lines[k] == t[k]);
        }
        if text::trim(lines.last()).len() > 0 {
            assert(all[all.len() - 1] == text::trim(lines.last()));
        }
        if all.contains(x) {
            let i = choose|i: int| 0 <= i < all.len() && all[i] == x;
            if i < before.len() {
                assert(before[i] == x);
            } else {
                assert(text::trim(lines[lines.len() - 1]) == x);
            }
        }
        if x.len() > 0 && exists|i: int| 0 <= i < lines.len() && text::trim(#[trigger] lines[i])
            == x {
            let k = choose|k: int| 0 <= k < lines.len() && text::trim(#[trigger] lines[k]) == x;
            if k < t.len() {
                assert(t[k] == lines[k]);
            }
        }
    }
}

/// The names of keys are those printed: every line that is not blank gives the name on it,
/// without the white space around it, and nothing else is a name.
pub proof fn every_name_printed_is_a_key(out: CommandOutput, x: Seq<char>)
    ensures
        out.success ==> (keys_of(Some(out)).contains(x) <==> x.len() > 0 && exists|i: int|
            0 <= i < text::lines(strings::lossy_text(out.stdout@)).len() && text::trim(
                #[trigger] text::lines(strings::lossy_text(out.stdout@))[i],
            ) == x),
        !out.success ==> keys_of(Some(out)).len() == 0 && version_of(Some(out)) is None,
{
    trimmed_lines_hold(text::lines(strings::lossy_text(out.stdout@)), x);
}

/// The version is what was printed without the end of its line, and a command that failed
/// or printed nothing gives none.
pub proof fn the_version_is_what_was_printed(out: CommandOutput, v: Seq<char>)
    requires
        v.len() > 0,
        !text::is_white(v[0]),
        !text::is_white(v.last()),
    ensures
        version_in(v.push('\n')) == Some(v),
        version_in(Seq::empty()) is None,
        out.success && strings::lossy_text(out.stdout@) == v.push('\n') ==> version_of(Some(out))
            == Some(v),
{
    text::trailing_white_is_nothing(v, '\n');
    text::trim_of_tight(v);
    text::trim_of_tight(Seq::empty());
}

/// The socket is the one under `/run` where it is there, else the one under `/var/run`.
pub proof fn the_first_socket_is_taken(present: Seq<bool>)
    requires
        present.len() == 2,
    ensures
        present[0] ==> socket_of(present) == Some("/run/keyd.socket"@),
        !present[0] && present[1] ==> socket_of(present) == Some("/var/run/keyd.socket"@),
        !present[0] && !present[1] ==> socket_of(present) is None,
{
}

/// The summary tells what was found: the version, whether configs can be checked, how many
/// names of keys there are, and the socket.
pub proof fn the_summary_tells_what_was_found(p: KeydProbeView, v: Seq<char>, s: Seq<char>)
    requires
        p.version == Some(v),
        p.socket == Some(s),
    ensures
        p.check ==> summary_of(p) == "version: "@ + v + "  check: "@ + "ok"@ + "  list-keys: "@
            + text::decimal(p.keys.len()) + " names  socket: "@ + s,
        !p.check ==> summary_of(p) == "version: "@ + v + "  check: "@ + "UNAVAILABLE"@
            + "  list-keys: "@ + text::decimal(p.keys.len()) + " names  socket: "@ + s,
        summary_of(KeydProbeView { version: None, ..p }) == summary_of(
            KeydProbeView { version: Some("(no keyd in PATH)"@), ..p },
        ),
        summary_of(KeydProbeView { socket: None, ..p }) == summary_of(
            KeydProbeView { socket: Some("(none)"@), ..p },
        ),
{
}

/// A probe that was not run says that there is no keyd, and claims nothing of it.
pub proof fn an_unrun_probe_claims_nothing()
    ensures
        absent().version is None,
        !absent().check,
        absent().keys.len() == 0,
        absent().socket is None,
{
}

} // verus!
