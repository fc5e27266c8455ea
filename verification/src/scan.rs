//! Byte-level safety scan of the exact bytes to be written.
//!
//! `keyd check` is syntax-only, so the content gate stands here. The scan runs on raw
//! bytes and flags a deliberate superset of what keyd would execute: any line that keyd
//! could execute contains the literal token, so presence of the token in a line is
//! enough. An `include` is recognised exactly as keyd does it, on the raw untrimmed
//! line and before comments are looked at; a commented-out line never flags.

use crate::strings;
use crate::text;
use vstd::prelude::*;

verus! {

/// One finding from the scan, with the 1-based line it was found on.
#[derive(Debug, PartialEq, Eq)]
pub enum Finding {
    /// `command(`: executes shell as root on keypress. Requires explicit ack.
    Command { line: usize },
    /// `macro(` or `macro2(`: keystroke injection. Requires explicit ack.
    Macro { line: usize },
    /// An include directive (advisory; content is root-gated by keyd itself).
    Include { line: usize, arg: String },
    /// An include argument keyd would not resolve sanely (absolute or `..`).
    SuspectInclude { line: usize, arg: String },
}

/// A finding, its argument as a sequence of characters.
pub enum FindingView {
    Command { line: nat },
    Macro { line: nat },
    Include { line: nat, arg: Seq<char> },
    SuspectInclude { line: nat, arg: Seq<char> },
}

impl View for Finding {
    type V = FindingView;

    open spec fn view(&self) -> FindingView {
        match *self {
            Finding::Command { line } => FindingView::Command { line: line as nat },
            Finding::Macro { line } => FindingView::Macro { line: line as nat },
            Finding::Include { line, arg } => FindingView::Include { line: line as nat, arg: arg@ },
            Finding::SuspectInclude { line, arg } => FindingView::SuspectInclude {
                line: line as nat,
                arg: arg@,
            },
        }
    }
}

impl FindingView {
    /// The line of the finding.
    pub open spec fn line(self) -> nat {
        match self {
            FindingView::Command { line } => line,
            FindingView::Macro { line } => line,
            FindingView::Include { line, .. } => line,
            FindingView::SuspectInclude { line, .. } => line,
        }
    }

    /// The finding is one that must be acknowledged.
    pub open spec fn needs_ack(self) -> bool {
        self is Command || self is Macro
    }

    /// The one-line description of the finding.
    pub open spec fn describe(self) -> Seq<char> {
        match self {
            FindingView::Command { line } => "command line "@ + text::decimal(line),
            FindingView::Macro { line } => "macro line "@ + text::decimal(line),
            FindingView::Include { line, arg } => "include line "@ + text::decimal(line) + " "@
                + arg,
            FindingView::SuspectInclude { line, arg } => "suspect-include line "@ + text::decimal(
                line,
            ) + " "@ + arg,
        }
    }
}

/// The bytes that keyd skips in front of a line.
pub open spec fn is_c_space(b: u8) -> bool {
    b == 0x20 || b == 0x09 || b == 0x0b || b == 0x0c || b == 0x0d
}

/// The raw line is a comment: its first byte that is not space is `#`.
pub open spec fn is_comment(raw: Seq<u8>) -> bool {
    exists|i: int|
        0 <= i < raw.len() && #[trigger] raw[i] == 0x23 && (forall|j: int|
            0 <= j < i ==> is_c_space(#[trigger] raw[j]))
}

/// The raw line is an include directive to keyd.
pub open spec fn is_include(raw: Seq<u8>) -> bool {
    text::starts_with(raw, text::bytes("include "@))
}

/// The raw line holds the token that runs a shell command.
pub open spec fn has_command(raw: Seq<u8>) -> bool {
    text::has_part(raw, text::bytes("command("@))
}

/// The raw line holds a token that injects keystrokes.
pub open spec fn has_macro(raw: Seq<u8>) -> bool {
    text::has_part(raw, text::bytes("macro("@)) || text::has_part(raw, text::bytes("macro2("@))
}

/// The argument of an include line.
pub open spec fn include_arg(raw: Seq<u8>) -> Seq<char> {
    strings::lossy_text(
        raw.subrange(text::bytes("include "@).len() as int, raw.len() as int),
    )
}

/// An include argument that leaves the config directory: absolute, or with a `..`
/// segment.
pub open spec fn is_suspect(arg: Seq<char>) -> bool {
    text::starts_with(arg, "/"@) || text::split(arg, '/').contains(".."@)
}

/// What an include directive with the argument gives.
pub open spec fn of_include(arg: Seq<char>, line: nat) -> FindingView {
    if is_suspect(arg) {
        FindingView::SuspectInclude { line, arg }
    } else {
        FindingView::Include { line, arg }
    }
}

/// What one raw line gives, `line` being its number.
pub open spec fn line_findings(raw: Seq<u8>, line: nat) -> Seq<FindingView> {
    if is_include(raw) {
        seq![of_include(include_arg(raw), line)]
    } else if is_comment(raw) {
        Seq::empty()
    } else {
        (if has_command(raw) {
            seq![FindingView::Command { line }]
        } else {
            Seq::empty()
        }) + (if has_macro(raw) {
            seq![FindingView::Macro { line }]
        } else {
            Seq::empty()
        })
    }
}

/// What the first `n` raw lines give.
pub open spec fn findings_upto(raw: Seq<Seq<u8>>, n: nat) -> Seq<FindingView>
    decreases n,
{
    if n == 0 {
        Seq::empty()
    } else {
        findings_upto(raw, (n - 1) as nat) + line_findings(raw[n - 1], n)
    }
}

/// The raw lines of the bytes.
pub open spec fn raw_lines(bytes: Seq<u8>) -> Seq<Seq<u8>> {
    text::split(bytes, 0x0au8)
}

/// What the whole of the bytes gives, line by line.
pub open spec fn findings(bytes: Seq<u8>) -> Seq<FindingView> {
    findings_upto(raw_lines(bytes), raw_lines(bytes).len())
}

impl Finding {
    /// Findings that require the caller's explicit acknowledgement before apply.
    pub fn needs_ack(&self) -> (r: bool)
        ensures
            r == self@.needs_ack(),
    {
        match self {
            Finding::Command { .. } => true,
            Finding::Macro { .. } => true,
            _ => false,
        }
    }

    /// Machine-readable one-liner for the stdout protocol.
    pub fn describe(&self) -> (r: String)
        ensures
            r@ == self@.describe(),
    {
        match self {
            Finding::Command { line } => {
                let mut r = strings::copy("command line ");
                r.append(strings::decimal(*line as u64).as_str());
                r
            },
            Finding::Macro { line } => {
                let mut r = strings::copy("macro line ");
                r.append(strings::decimal(*line as u64).as_str());
                r
            },
            Finding::Include { line, arg } => {
                let mut r = strings::copy("include line ");
                r.append(strings::decimal(*line as u64).as_str());
                r.append(" ");
                r.append(arg.as_str());
                r
            },
            Finding::SuspectInclude { line, arg } => {
                let mut r = strings::copy("suspect-include line ");
                r.append(strings::decimal(*line as u64).as_str());
                r.append(" ");
                r.append(arg.as_str());
                r
            },
        }
    }
}

/// Whether the raw line is a comment.
fn comment_line(raw: &[u8]) -> (r: bool)
    ensures
        r == is_comment(raw@),
{
    let mut i: usize = 0;
    while i < raw.len()
        invariant
            i <= raw@.len(),
            forall|j: int| 0 <= j < i ==> is_c_space(#[trigger] raw@[j]),
        decreases raw.len() - i,
    {
        let b = raw[i];
        if b == 0x23 {
            return true;
        }
        if !(b == 0x20 || b == 0x09 || b == 0x0b || b == 0x0c || b == 0x0d) {
            assert(!is_c_space(raw@[i as int]));
            return false;
        }
        i = i + 1;
    }
    false
}

/// Whether an include argument leaves the config directory.
fn suspect_arg(arg: &str) -> (r: bool)
    ensures
        r == is_suspect(arg@),
{
    if strings::starts_with(arg, "/") {
        return true;
    }
    let segs = strings::split(arg, '/');
    let ghost all = text::split(arg@, '/');
    let r = strings::listed(&segs, "..");
    proof {
        if r {
            let i = choose|i: int| 0 <= i < segs@.len() && #[trigger] segs@[i]@ == ".."@;
            assert(all[i] == ".."@);
        } else if all.contains(".."@) {
            let i = choose|i: int| 0 <= i < all.len() && all[i] == ".."@;
            assert(segs@[i]@ == ".."@);
        }
    }
    r
}

/// What an include directive with the argument gives.
pub fn include_finding(arg: String, line: usize) -> (r: Finding)
    ensures
        r@ == of_include(arg@, line as nat),
{
    if suspect_arg(arg.as_str()) {
        Finding::SuspectInclude { line, arg }
    } else {
        Finding::Include { line, arg }
    }
}

/// Scan config bytes. Operates on raw lines between `\n`; bytes that are not UTF-8
/// scan fine, the tokens looked for being pure ASCII.
pub fn scan(bytes: &[u8]) -> (r: Vec<Finding>)
    ensures
        text::views(r@) == findings(bytes@),
{
    let raw = strings::split_bytes(bytes, 0x0a);
    let ghost all = raw_lines(bytes@);
    let mut found: Vec<Finding> = Vec::new();
    let mut i: usize = 0;
    assert(text::views(found@) == Seq::<FindingView>::empty());
    while i < raw.len()
        invariant
            i <= raw@.len(),
            text::views(raw@) == all,
            text::views(found@) == findings_upto(all, i as nat),
        decreases raw.len() - i,
    {
        let ghost found0 = found@;
        let line: usize = i + 1;
        let one = raw[i].as_slice();
        assert(one@ == all[i as int]);
        let directive = "include ".as_bytes();
        if strings::bytes_start_with(one, directive) {
            let rest = strings::slice_bytes(one, directive.len(), one.len());
            let arg = strings::from_utf8_lossy(rest.as_slice());
            found.push(include_finding(arg, line));
        } else if !comment_line(one) {
            if strings::bytes_have_part(one, "command(".as_bytes()) {
                found.push(Finding::Command { line });
            }
            if strings::bytes_have_part(one, "macro(".as_bytes()) || strings::bytes_have_part(
                one,
                "macro2(".as_bytes(),
            ) {
                found.push(Finding::Macro { line });
            }
        }
        assert(text::views(found@) == text::views(found0) + line_findings(
            all[i as int],
            line as nat,
        ));
        i = i + 1;
    }
    found
}

/// What the first `n` lines give holds what each of them gives.
proof fn findings_hold_each_line(raw: Seq<Seq<u8>>, n: nat, i: int, k: int)
    requires
        0 <= i < n,
        0 <= k < line_findings(raw[i], (i + 1) as nat).len(),
    ensures
        findings_upto(raw, n).contains(line_findings(raw[i], (i + 1) as nat)[k]),
    decreases n,
{
    let before = findings_upto(raw, (n - 1) as nat);
    let one = line_findings(raw[n - 1], n);
    if i == n - 1 {
        assert((before + one)[before.len() + k] == one[k]);
    } else {
        findings_hold_each_line(raw, (n - 1) as nat, i, k);
        let f = line_findings(raw[i], (i + 1) as nat)[k];
        let m = choose|m: int| 0 <= m < before.len() && before[m] == f;
        assert((before + one)[m] == f);
    }
}

/// Nothing executable passes unflagged: a line that is neither a comment nor an
/// include and holds a command or macro token is in the findings, as something that
/// must be acknowledged.
pub proof fn execution_is_always_flagged(bytes: Seq<u8>, i: int)
    requires
        0 <= i < raw_lines(bytes).len(),
        !is_include(raw_lines(bytes)[i]),
        !is_comment(raw_lines(bytes)[i]),
    ensures
        has_command(raw_lines(bytes)[i]) ==> findings(bytes).contains(
            (FindingView::Command { line: (i + 1) as nat }),
        ),
        has_macro(raw_lines(bytes)[i]) ==> findings(bytes).contains(
            (FindingView::Macro { line: (i + 1) as nat }),
        ),
{
    let raw = raw_lines(bytes);
    let one = line_findings(raw[i], (i + 1) as nat);
    if has_command(raw[i]) {
        assert(one[0] == (FindingView::Command { line: (i + 1) as nat }));
        findings_hold_each_line(raw, raw.len(), i, 0);
    }
    if has_macro(raw[i]) {
        assert(one[one.len() - 1] == (FindingView::Macro { line: (i + 1) as nat }));
        findings_hold_each_line(raw, raw.len(), i, one.len() - 1);
    }
}

/// What the first `n` lines give comes from those lines, in their order.
proof fn findings_come_from_lines(raw: Seq<Seq<u8>>, n: nat)
    ensures
        forall|m: int|
            0 <= m < findings_upto(raw, n).len() ==> {
                let f = #[trigger] findings_upto(raw, n)[m];
                1 <= f.line() <= n && line_findings(raw[f.line() - 1], f.line()).contains(f)
            },
        forall|a: int, b: int|
            0 <= a <= b < findings_upto(raw, n).len() ==> (#[trigger] findings_upto(
                raw,
                n,
            )[a]).line() <= (#[trigger] findings_upto(raw, n)[b]).line(),
    decreases n,
{
    if n > 0 {
        findings_come_from_lines(raw, (n - 1) as nat);
        let before = findings_upto(raw, (n - 1) as nat);
        let one = line_findings(raw[n - 1], n);
        let all = before + one;
        assert forall|m: int| 0 <= m < all.len() implies {
            let f = #[trigger] all[m];
            1 <= f.line() <= n && line_findings(raw[f.line() - 1], f.line()).contains(f)
        } by {
            if m >= before.len() {
                assert(all[m] == one[m - before.len()]);
                assert(one.contains(all[m]));
            } else {
                assert(all[m] == before[m]);
            }
        }
        assert forall|a: int, b: int| 0 <= a <= b < all.len() implies (#[trigger] all[a]).line()
            <= (#[trigger] all[b]).line() by {
            if b < before.len() {
                assert(all[a] == before[a] && all[b] == before[b]);
            } else {
                assert(all[b] == one[b - before.len()]);
                if a < before.len() {
                    assert(all[a] == before[a]);
                } else {
                    assert(all[a] == one[a - before.len()]);
                }
            }
        }
    }
}

/// Every finding names a line that justifies it, and findings stand in the order of
/// their lines. So comments never flag, and a config without any of the tokens or an
/// include has no findings.
pub proof fn findings_are_justified_and_ordered(bytes: Seq<u8>)
    ensures
        forall|m: int|
            0 <= m < findings(bytes).len() ==> {
                let f = #[trigger] findings(bytes)[m];
                let raw = raw_lines(bytes)[f.line() - 1];
                &&& 1 <= f.line() <= raw_lines(bytes).len()
                &&& f is Command ==> has_command(raw) && !is_comment(raw) && !is_include(raw)
                &&& f is Macro ==> has_macro(raw) && !is_comment(raw) && !is_include(raw)
                &&& f is Include ==> is_include(raw) && f->Include_arg == include_arg(raw)
                    && !is_suspect(include_arg(raw))
                &&& f is SuspectInclude ==> is_include(raw) && f->SuspectInclude_arg
                    == include_arg(raw) && is_suspect(include_arg(raw))
            },
        forall|a: int, b: int|
            0 <= a <= b < findings(bytes).len() ==> (#[trigger] findings(bytes)[a]).line() <= (
            #[trigger] findings(bytes)[b]).line(),
{
    findings_come_from_lines(raw_lines(bytes), raw_lines(bytes).len());
    assert forall|m: int| 0 <= m < findings(bytes).len() implies {
        let f = #[trigger] findings(bytes)[m];
        let raw = raw_lines(bytes)[f.line() - 1];
        &&& 1 <= f.line() <= raw_lines(bytes).len()
        &&& f is Command ==> has_command(raw) && !is_comment(raw) && !is_include(raw)
        &&& f is Macro ==> has_macro(raw) && !is_comment(raw) && !is_include(raw)
        &&& f is Include ==> is_include(raw) && f->Include_arg == include_arg(raw) && !is_suspect(
            include_arg(raw),
        )
        &&& f is SuspectInclude ==> is_include(raw) && f->SuspectInclude_arg == include_arg(raw)
            && is_suspect(include_arg(raw))
    } by {
        let f = findings(bytes)[m];
        let one = line_findings(raw_lines(bytes)[f.line() - 1], f.line());
        assert(one.contains(f));
        let k = choose|k: int| 0 <= k < one.len() && one[k] == f;
        assert(one[k] == f);
    }
}

/// A finding has to be acknowledged exactly where it could execute something.
pub proof fn only_execution_needs_ack(f: FindingView)
    ensures
        f.needs_ack() <==> !(f is Include || f is SuspectInclude),
{
}

/// The first byte of the raw line that is not space is not a hash.
pub open spec fn is_live(raw: Seq<u8>) -> bool {
    forall|i: int|
        0 <= i < raw.len() && #[trigger] raw[i] == 0x23 ==> exists|j: int|
            0 <= j < i && #[trigger] raw[j] != 0x20 && raw[j] != 0x09 && raw[j] != 0x0b && raw[j]
                != 0x0c && raw[j] != 0x0d
}

/// Whatever could run something is found: a line that keyd reads, that is no include, and
/// that holds `command(`, `macro(` or `macro2(` anywhere, makes the content one that must be
/// acknowledged, and every line that keyd takes for an include is reported with its
/// argument.
pub proof fn nothing_sensitive_goes_unnoticed(bytes: Seq<u8>, i: int)
    requires
        0 <= i < text::split(bytes, 0x0au8).len(),
    ensures
        ({
            let raw = text::split(bytes, 0x0au8)[i];
            let includes = text::starts_with(raw, text::bytes("include "@));
            let runs = text::has_part(raw, text::bytes("command("@)) || text::has_part(
                raw,
                text::bytes("macro("@),
            ) || text::has_part(raw, text::bytes("macro2("@));
            &&& !includes && is_live(raw) && runs ==> exists|m: int|
                0 <= m < findings(bytes).len() && (#[trigger] findings(bytes)[m]).needs_ack()
                    && findings(bytes)[m].line() == i + 1
            &&& includes ==> exists|m: int|
                0 <= m < findings(bytes).len() && (#[trigger] findings(bytes)[m]) == of_include(
                    include_arg(raw),
                    (i + 1) as nat,
                )
        }),
{
    let raw = raw_lines(bytes)[i];
    let all = findings(bytes);
    if is_include(raw) {
        findings_hold_each_line(raw_lines(bytes), raw_lines(bytes).len(), i, 0);
        let f = of_include(include_arg(raw), (i + 1) as nat);
        let m = choose|m: int| 0 <= m < all.len() && all[m] == f;
        assert(all[m] == f);
    } else if is_live(raw) {
        if is_comment(raw) {
            let k = choose|k: int|
                0 <= k < raw.len() && #[trigger] raw[k] == 0x23 && (forall|j: int|
                    0 <= j < k ==> is_c_space(#[trigger] raw[j]));
            let j = choose|j: int|
                0 <= j < k && #[trigger] raw[j] != 0x20 && raw[j] != 0x09 && raw[j] != 0x0b
                    && raw[j] != 0x0c && raw[j] != 0x0d;
            assert(is_c_space(raw[j]));
        }
        execution_is_always_flagged(bytes, i);
        if has_command(raw) {
            let f = FindingView::Command { line: (i + 1) as nat };
            let m = choose|m: int| 0 <= m < all.len() && all[m] == f;
            assert(all[m].needs_ack());
        }
        if has_macro(raw) {
            let f = FindingView::Macro { line: (i + 1) as nat };
            let m = choose|m: int| 0 <= m < all.len() && all[m] == f;
            assert(all[m].needs_ack());
        }
    }
}

/// An include that would leave the directory is told from one that stays: by an absolute
/// path, or by a step up anywhere in it. Either is told with its line and argument, and what
/// is described is what was found.
pub proof fn an_include_that_leaves_is_suspect(arg: Seq<char>, line: nat, f: FindingView)
    ensures
        of_include(arg, line) is SuspectInclude <==> (arg.len() > 0 && arg[0] == '/')
            || text::split(arg, '/').contains(".."@),
        of_include(arg, line).line() == line,
        of_include(arg, line) matches FindingView::SuspectInclude { arg: a, .. } ==> a == arg,
        of_include(arg, line) matches FindingView::Include { arg: a, .. } ==> a == arg,
        f matches FindingView::Command { line: n } ==> f.describe() == "command line "@
            + text::decimal(n),
        f matches FindingView::Macro { line: n } ==> f.describe() == "macro line "@
            + text::decimal(n),
        f matches FindingView::Include { line: n, arg: a } ==> f.describe() == "include line "@
            + text::decimal(n) + " "@ + a,
        f matches FindingView::SuspectInclude { line: n, arg: a } ==> f.describe()
            == "suspect-include line "@ + text::decimal(n) + " "@ + a,
{
    reveal_strlit("/");
    if arg.len() > 0 && arg[0] == '/' {
        assert(arg.subrange(0, 1) =~= "/"@);
    }
    if text::starts_with(arg, "/"@) {
        assert(arg.subrange(0, 1)[0] == '/');
    }
}

/// A finding is told by what it is and the line it stands on, an include with what it
/// includes; what runs or types something waits to be acknowledged.
pub proof fn a_finding_is_told_with_its_line(f: FindingView)
    ensures
        f is Command ==> f.describe() == "command line "@ + text::decimal(f.line()),
        f is Macro ==> f.describe() == "macro line "@ + text::decimal(f.line()),
        f is Include ==> f.describe() == "include line "@ + text::decimal(f.line()) + " "@
            + f->Include_arg,
        f is SuspectInclude ==> f.describe() == "suspect-include line "@ + text::decimal(f.line())
            + " "@ + f->SuspectInclude_arg,
        f.needs_ack() <==> f is Command || f is Macro,
{
}

/// A comment never flags: a line whose first byte but spaces is a hash gives nothing,
/// whatever it holds, unless keyd takes it for an include.
pub proof fn a_comment_is_never_flagged(blanks: Seq<u8>, rest: Seq<u8>, line: nat)
    requires
        forall|i: int|
            0 <= i < blanks.len() ==> #[trigger] blanks[i] == 0x20 || blanks[i] == 0x09 || blanks[i]
                == 0x0b || blanks[i] == 0x0c || blanks[i] == 0x0d,
        !text::starts_with(blanks.push(0x23) + rest, text::bytes("include "@)),
    ensures
        line_findings(blanks.push(0x23) + rest, line).len() == 0,
{
    let raw = blanks.push(0x23) + rest;
    let n = blanks.len() as int;
    assert(raw[n] == 0x23);
    assert forall|j: int| 0 <= j < n implies is_c_space(#[trigger] raw[j]) by {
        assert(raw[j] == blanks[j]);
    }
    assert(is_comment(raw));
}

} // verus!
