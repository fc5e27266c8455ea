//! Draft-then-install: where a draft goes, what was found about it, and the shell steps
//! that install it over the real config.

use crate::names;
use crate::paths;
use crate::probe::CommandOutput;
use crate::strings;
use crate::text;
use vstd::prelude::*;

verus! {

/// A character that a shell takes as it stands.
pub open spec fn plain(c: char) -> bool {
    text::is_alnum(c) || c == '/' || c == '.' || c == '_' || c == '-'
}

/// `s` holds nothing that a shell would read differently.
pub open spec fn all_plain(s: Seq<char>) -> bool {
    forall|i: int| 0 <= i < s.len() ==> plain(#[trigger] s[i])
}

/// A path as a word of a shell command: as it stands where that is safe, else in single
/// quotes, with each single quote in it taken out of them.
pub open spec fn quoted(s: Seq<char>) -> Seq<char> {
    if all_plain(s) {
        s
    } else {
        "'"@ + text::replace_char(s, '\'', "'\\''"@) + "'"@
    }
}

/// Single-quote a path for copy-paste shell steps, only where it is needed.
pub fn shell_quote(s: &str) -> (r: String)
    ensures
        r@ == quoted(s@),
{
    let v = strings::chars(s);
    let mut i: usize = 0;
    while i < v.len()
        invariant
            i <= v@.len(),
            v@ == s@,
            forall|k: int| 0 <= k < i ==> plain(#[trigger] s@[k]),
        decreases v.len() - i,
    {
        let c = v[i];
        if !(strings::is_alnum(c) || c == '/' || c == '.' || c == '_' || c == '-') {
            assert(!plain(s@[i as int]));
            let inner = strings::replace_char(s, '\'', "'\\''");
            return strings::cat3("'", inner.as_str(), "'");
        }
        i = i + 1;
    }
    strings::copy(s)
}

/// What a shell makes of a word: quotes are taken off, and a backslash outside them
/// stands for the character behind it. None: an open quote, or a character that is not
/// safe outside quotes.
pub open spec fn shell_word(s: Seq<char>, inside: bool) -> Option<Seq<char>>
    decreases s.len(),
{
    if s.len() == 0 {
        if inside {
            None
        } else {
            Some(Seq::empty())
        }
    } else if s[0] == '\'' {
        shell_word(s.skip(1), !inside)
    } else if inside || plain(s[0]) {
        match shell_word(s.skip(1), inside) {
            Some(rest) => Some(seq![s[0]] + rest),
            None => None,
        }
    } else if s[0] == '\\' && s.len() > 1 {
        match shell_word(s.skip(2), false) {
            Some(rest) => Some(seq![s[1]] + rest),
            None => None,
        }
    } else {
        None
    }
}

proof fn plain_word(s: Seq<char>)
    requires
        all_plain(s),
    ensures
        shell_word(s, false) == Some(s),
    decreases s.len(),
{
    if s.len() > 0 {
        assert(plain(s[0]));
        assert forall|i: int| 0 <= i < s.skip(1).len() implies plain(#[trigger] s.skip(1)[i]) by {
            assert(plain(s[i + 1]));
        }
        plain_word(s.skip(1));
        assert(seq![s[0]] + s.skip(1) =~= s);
    }
}

proof fn replaced_from_front(s: Seq<char>, c: char, with: Seq<char>)
    requires
        s.len() > 0,
    ensures
        text::replace_char(s, c, with) == (if s[0] == c {
            with
        } else {
            seq![s[0]]
        }) + text::replace_char(s.skip(1), c, with),
    decreases s.len(),
{
    let first = if s[0] == c {
        with
    } else {
        seq![s[0]]
    };
    if s.len() == 1 {
        assert(s.drop_last() =~= Seq::<char>::empty());
        assert(s.skip(1) =~= Seq::<char>::empty());
        assert(text::replace_char(s.drop_last(), c, with) =~= Seq::<char>::empty());
        assert(text::replace_char(s.skip(1), c, with) =~= Seq::<char>::empty());
        assert(Seq::<char>::empty() + first =~= first + Seq::<char>::empty());
    } else {
        replaced_from_front(s.drop_last(), c, with);
        assert(s.drop_last().skip(1) =~= s.skip(1).drop_last());
        assert(s.drop_last()[0] == s[0]);
        assert(s.skip(1).last() == s.last());
        let last = if s.last() == c {
            with
        } else {
            seq![s.last()]
        };
        let mid = text::replace_char(s.skip(1).drop_last(), c, with);
        assert((first + mid) + last =~= first + (mid + last));
    }
}

proof fn quoted_word(s: Seq<char>)
    ensures
        shell_word(text::replace_char(s, '\'', "'\\''"@) + "'"@, true) == Some(s),
    decreases s.len(),
{
    reveal_strlit("'\\''");
    reveal_strlit("'");
    let with = "'\\''"@;
    let end = "'"@;
    let all = text::replace_char(s, '\'', with) + end;
    if s.len() == 0 {
        assert(all =~= end);
        assert(all.skip(1) =~= Seq::<char>::empty());
        assert(shell_word(all.skip(1), false) == Some(Seq::<char>::empty()));
        assert(s =~= Seq::<char>::empty());
    } else {
        replaced_from_front(s, '\'', with);
        quoted_word(s.skip(1));
        let rest = text::replace_char(s.skip(1), '\'', with) + end;
        assert(seq![s[0]] + s.skip(1) =~= s);
        if s[0] == '\'' {
            assert(all =~= with + rest);
            let a = all.skip(1);
            assert(a[0] == '\\' && a[1] == '\'');
            let b = a.skip(2);
            assert(b =~= seq!['\''] + rest);
            assert(b[0] == '\'');
            assert(b.skip(1) =~= rest);
            assert(shell_word(b, false) == shell_word(rest, true));
            assert(shell_word(a, false) == Some(seq!['\''] + s.skip(1)));
            assert(shell_word(all, true) == shell_word(a, false));
        } else {
            assert(all =~= seq![s[0]] + rest);
            assert(all.skip(1) =~= rest);
        }
    }
}

/// A shell reads a quoted path as exactly that path.
pub proof fn quoting_is_undone_by_a_shell(s: Seq<char>)
    ensures
        shell_word(quoted(s), false) == Some(s),
{
    if all_plain(s) {
        plain_word(s);
    } else {
        reveal_strlit("'");
        quoted_word(s);
        let body = text::replace_char(s, '\'', "'\\''"@) + "'"@;
        assert(quoted(s) =~= seq!['\''] + body);
        assert(quoted(s).skip(1) =~= body);
    }
}

// ---------------------------------------------------------------------------
// Drafts
// ---------------------------------------------------------------------------

/// The directory of the drafts below the base of the per-user store.
pub open spec fn drafts_in(base: Option<Seq<char>>) -> Option<Seq<char>> {
    match base {
        Some(b) => Some(paths::join(paths::join(b, "keyd-viz"@), "drafts"@)),
        None => None,
    }
}

/// The directory of the drafts below the base of the per-user store, shared with the
/// layout choices.
pub fn drafts_dir(base: &Option<String>) -> (r: Option<String>)
    ensures
        text::opt(r) == drafts_in(text::opt(*base)),
{
    match base {
        Some(b) => Some(
            paths::join_path(paths::join_path(b.as_str(), "keyd-viz").as_str(), "drafts"),
        ),
        None => None,
    }
}

/// Where the draft of a config goes in the directory of drafts: under the config's own
/// file name.
pub open spec fn draft_place(path: Seq<char>, dir: Seq<char>) -> Seq<char> {
    paths::join(
        dir,
        match paths::file_name(path) {
            Some(f) => f,
            None => "draft.conf"@,
        },
    )
}

/// Where the draft of a config goes.
pub fn draft_path(path: &str, dir: &str) -> (r: String)
    ensures
        r@ == draft_place(path@, dir@),
{
    match paths::file_name_of(path) {
        Some(f) => paths::join_path(dir, f.as_str()),
        None => paths::join_path(dir, "draft.conf"),
    }
}

/// Shell steps that install the draft over the real config.
pub open spec fn steps_of(draft: Seq<char>, path: Seq<char>) -> Seq<char> {
    "sudo cp "@ + quoted(draft) + " "@ + quoted(path) + "\nsudo keyd reload"@
}

/// Copy-paste shell steps that install the draft over the real config.
pub fn install_steps(draft: &str, path: &str) -> (r: String)
    ensures
        r@ == steps_of(draft@, path@),
{
    let mut r = strings::copy("sudo cp ");
    r.append(shell_quote(draft).as_str());
    r.append(" ");
    r.append(shell_quote(path).as_str());
    r.append("\nsudo keyd reload");
    r
}

/// A verdict of `keyd check`; none where keyd could not be run.
pub open spec fn verdict(r: Option<Result<(), String>>) -> Option<Result<(), Seq<char>>> {
    match r {
        None => None,
        Some(Ok(_)) => Some(Ok(())),
        Some(Err(e)) => Some(Err(e@)),
    }
}

/// A text on one line.
pub open spec fn one_line_of(t: Seq<char>) -> Seq<char> {
    text::replace_char(text::trim(t), '\n', " | "@)
}

/// What keyd printed, on one line.
pub open spec fn one_line(stdout: Seq<u8>) -> Seq<char> {
    one_line_of(strings::lossy_text(stdout))
}

/// A text on one line.
pub fn on_one_line(t: &str) -> (r: String)
    ensures
        r@ == one_line_of(t@),
{
    strings::replace_char(strings::trim(t).as_str(), '\n', " | ")
}

/// The verdict of `keyd check`, from whether there was a file to check and how the command
/// ended.
pub open spec fn checked(written: bool, out: Option<CommandOutput>) -> Option<
    Result<(), Seq<char>>,
> {
    match out {
        Some(o) if written => Some(
            if o.success {
                Ok(())
            } else {
                Err(one_line(o.stdout@))
            },
        ),
        _ => None,
    }
}

/// The verdict of `keyd check` on a draft, from how the command ended: early feedback,
/// not a gate.
pub fn keyd_check_draft(out: &Option<CommandOutput>) -> (r: Option<Result<(), String>>)
    ensures
        verdict(r) == checked(true, *out),
{
    match out {
        None => None,
        Some(o) => {
            if o.success {
                Some(Ok(()))
            } else {
                let detail = strings::from_utf8_lossy(o.stdout.as_slice());
                Some(Err(on_one_line(detail.as_str())))
            }
        },
    }
}

/// Whether a candidate body is acceptable, from whether it could be written out for the
/// check and how the check ended.
pub fn keyd_check_bytes(written: bool, out: &Option<CommandOutput>) -> (r: Option<
    Result<(), String>,
>)
    ensures
        verdict(r) == checked(written, *out),
{
    if written {
        keyd_check_draft(out)
    } else {
        None
    }
}

/// A saved draft: where it went and what to run to install it.
#[derive(Debug)]
pub struct DraftSaved {
    pub draft_path: String,
    /// Shell steps that install the draft over the real config.
    pub install_steps: String,
    /// The real config changed on disk since the session opened, and installing the
    /// draft would overwrite that.
    pub stale_warning: Option<String>,
    /// The verdict of `keyd check`; none where there is no keyd.
    pub check: Option<Result<(), String>>,
}

/// The verdict as a line of the summary.
pub open spec fn verdict_line(check: Option<Result<(), Seq<char>>>) -> Seq<char> {
    match check {
        Some(Ok(_)) => "keyd check: OK\n"@,
        Some(Err(e)) => "\u{26a0} keyd check failed: "@ + e + "\n"@,
        None => "keyd not found \u{2014} draft not validated\n"@,
    }
}

/// The summary of a saved draft.
pub open spec fn summary_of(
    path: Seq<char>,
    check: Option<Result<(), Seq<char>>>,
    stale: Option<Seq<char>>,
    diff: Seq<char>,
    steps: Seq<char>,
) -> Seq<char> {
    "draft saved: "@ + path + "\n"@ + verdict_line(check) + (match stale {
        Some(w) => "\u{26a0} "@ + w + "\n"@,
        None => Seq::empty(),
    }) + (if diff.len() > 0 {
        "\n"@ + text::trim_end(diff) + "\n"@
    } else {
        Seq::empty()
    }) + "\ninstall:\n"@ + steps
}

/// What the panel says of a draft that could not be saved.
pub open spec fn not_saved(e: Seq<char>) -> Seq<char> {
    "\u{26a0} draft save failed: "@ + e
}

/// What the panel says of a draft that could not be saved.
pub fn save_failed(e: &str) -> (r: String)
    ensures
        r@ == not_saved(e@),
{
    strings::cat("\u{26a0} draft save failed: ", e)
}

/// The summary of a saved draft for the panel: the verdict, staleness, the changes, and
/// the install steps.
pub fn draft_summary(saved: &DraftSaved, diff: &str) -> (r: String)
    ensures
        r@ == summary_of(
            saved.draft_path@,
            verdict(saved.check),
            text::opt(saved.stale_warning),
            diff@,
            saved.install_steps@,
        ),
{
    let mut out = strings::cat3("draft saved: ", saved.draft_path.as_str(), "\n");
    match &saved.check {
        Some(Ok(_)) => {
            out.append("keyd check: OK\n");
        },
        Some(Err(e)) => {
            let line = strings::cat3("\u{26a0} keyd check failed: ", e.as_str(), "\n");
            out.append(line.as_str());
        },
        None => {
            out.append("keyd not found \u{2014} draft not validated\n");
        },
    }
    let stale = match &saved.stale_warning {
        Some(w) => strings::cat3("\u{26a0} ", w.as_str(), "\n"),
        None => String::new(),
    };
    out.append(stale.as_str());
    let shown = if !diff.is_empty() {
        strings::cat3("\n", strings::trim_end(diff).as_str(), "\n")
    } else {
        String::new()
    };
    out.append(shown.as_str());
    out.append("\ninstall:\n");
    out.append(saved.install_steps.as_str());
    out
}

/// The words of a command that copies the first to the second and reloads keyd.
pub open spec fn installs(steps: Seq<char>, from: Seq<char>, to: Seq<char>) -> bool {
    steps == "sudo cp "@ + from + " "@ + to + "\nsudo keyd reload"@
}

/// The steps install the draft over the config: a shell reads them as a copy from exactly
/// the draft to exactly the config, and a reload of keyd behind it.
pub proof fn the_steps_install_the_draft(draft: Seq<char>, path: Seq<char>)
    ensures
        exists|from: Seq<char>, to: Seq<char>| #[trigger]
            installs(steps_of(draft, path), from, to) && shell_word(from, false) == Some(draft)
                && shell_word(to, false) == Some(path),
{
    quoting_is_undone_by_a_shell(draft);
    quoting_is_undone_by_a_shell(path);
    assert(installs(steps_of(draft, path), quoted(draft), quoted(path)));
}

/// The draft of a config goes under the config's own file name into the directory of the
/// drafts, which is in the user's own store and nowhere where there is none.
pub proof fn a_draft_keeps_the_file_name(
    dir: Seq<char>,
    name: Seq<char>,
    drafts: Seq<char>,
    base: Option<Seq<char>>,
)
    requires
        names::is_valid_name(name),
    ensures
        draft_place(paths::join(dir, name + ".conf"@), drafts) == paths::join(
            drafts,
            name + ".conf"@,
        ),
        drafts_in(base) is Some <==> base is Some,
        base is Some ==> drafts_in(base)->0 == paths::join(
            paths::join(base->0, "keyd-viz"@),
            "drafts"@,
        ),
{
    reveal_strlit(".conf");
    reveal_strlit(".");
    reveal_strlit("..");
    let file = name + ".conf"@;
    names::valid_name_stays_in_its_directory(name);
    if file.contains('/') {
        let i = choose|i: int| 0 <= i < file.len() && file[i] == '/';
        if i < name.len() {
            assert(name.contains(name[i]));
        }
    }
    paths::file_in_directory(dir, file);
    assert(paths::components(paths::join(dir, file)).last() == file);
    assert(file.len() > 5);
}

/// The check is reported as it went: a draft that keyd accepts is good, one that it rejects
/// is told with what keyd said, and where it could not be run nothing is claimed.
pub proof fn the_check_is_reported_as_it_went(written: bool, out: Option<CommandOutput>)
    ensures
        checked(written, out) is None <==> !written || out is None,
        written && out is Some ==> (checked(written, out)->0 is Ok <==> out->0.success),
        written && out is Some && !out->0.success ==> checked(written, out)->0 == Err::<
            (),
            Seq<char>,
        >(one_line(out->0.stdout@)),
        verdict_line(Some(Ok(()))) == "keyd check: OK\n"@,
        written && out is Some && !out->0.success ==> verdict_line(checked(written, out))
            == "\u{26a0} keyd check failed: "@ + one_line(out->0.stdout@) + "\n"@,
{
}

/// The summary tells all of it: where the draft is, what the check said, that the config
/// changed meanwhile where it did, the changes, and at its end how to install it.
pub proof fn the_summary_tells_all(
    path: Seq<char>,
    check: Option<Result<(), Seq<char>>>,
    stale: Option<Seq<char>>,
    diff: Seq<char>,
    steps: Seq<char>,
)
    ensures
        ({
            let s = summary_of(path, check, stale, diff, steps);
            let head = "draft saved: "@ + path + "\n"@ + verdict_line(check);
            &&& text::starts_with(s, head)
            &&& text::ends_with(s, "\ninstall:\n"@ + steps)
            &&& stale is Some ==> text::starts_with(s, head + "\u{26a0} "@ + stale->0 + "\n"@)
            &&& diff.len() > 0 ==> text::ends_with(
                s,
                "\n"@ + text::trim_end(diff) + "\n"@ + "\ninstall:\n"@ + steps,
            )
            &&& diff.len() == 0 && stale is None ==> s == head + "\ninstall:\n"@ + steps
        }),
{
    let s = summary_of(path, check, stale, diff, steps);
    let head = "draft saved: "@ + path + "\n"@ + verdict_line(check);
    let tail = "\ninstall:\n"@ + steps;
    assert(s.subrange(0, head.len() as int) =~= head);
    assert(s.subrange(s.len() - tail.len(), s.len() as int) =~= tail);
    if stale is Some {
        let more = head + "\u{26a0} "@ + stale->0 + "\n"@;
        assert(s.subrange(0, more.len() as int) =~= more);
    }
    if diff.len() > 0 {
        let end = "\n"@ + text::trim_end(diff) + "\n"@ + "\ninstall:\n"@ + steps;
        assert(s.subrange(s.len() - end.len(), s.len() as int) =~= end);
    }
    if diff.len() == 0 && stale is None {
        assert(s =~= head + "\ninstall:\n"@ + steps);
    }
}

/// What keyd printed is told on one line: without the white space around it, as it is where
/// it is one line, and else with the ends of its lines marked.
pub proof fn what_was_printed_is_on_one_line(t: Seq<char>, a: Seq<char>, b: Seq<char>)
    ensures
        !one_line_of(t).contains('\n'),
        !text::trim(t).contains('\n') ==> one_line_of(t) == text::trim(t),
        text::trim(t) == a.push('\n') + b && !a.contains('\n') && !b.contains('\n')
            ==> one_line_of(t) == a + " | "@ + b,
        not_saved(t) == "\u{26a0} draft save failed: "@ + t,
{
    reveal_strlit(" | ");
    text::a_replaced_character_is_gone(text::trim(t), '\n', " | "@);
    text::a_replacement_goes_by_character(text::trim(t), Seq::empty(), '\n', " | "@);
    text::a_replacement_goes_by_character(a, seq!['\n'], '\n', " | "@);
    text::a_replacement_goes_by_character(a + seq!['\n'], b, '\n', " | "@);
    text::a_replacement_goes_by_character(b, Seq::empty(), '\n', " | "@);
    assert(a.push('\n') =~= a + seq!['\n']);
}

} // verus!
