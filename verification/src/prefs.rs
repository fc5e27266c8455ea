//! The layout choice for each config, kept as a table of `layout-id<TAB>config-path`
//! lines.

use crate::paths;
use crate::strings;
use crate::text;
use vstd::prelude::*;

verus! {

/// The base of the per-user store: the one set by the environment, else `.config` in the
/// home directory.
pub open spec fn config_base(xdg: Option<Seq<char>>, home: Option<Seq<char>>) -> Option<Seq<char>> {
    match xdg {
        Some(x) => Some(x),
        None => match home {
            Some(h) => Some(paths::join(h, ".config"@)),
            None => None,
        },
    }
}

/// The base of the per-user store, from the two environment variables that can set it.
pub fn config_home(xdg: &Option<String>, home: &Option<String>) -> (r: Option<String>)
    ensures
        text::opt(r) == config_base(text::opt(*xdg), text::opt(*home)),
{
    match xdg {
        Some(x) => Some(strings::copy(x.as_str())),
        None => match home {
            Some(h) => Some(paths::join_path(h.as_str(), ".config")),
            None => None,
        },
    }
}

/// Where the table is kept below the base.
pub open spec fn kept_at(base: Seq<char>) -> Seq<char> {
    paths::join(paths::join(base, "keyd-viz"@), "layouts.tsv"@)
}

/// Where the table is kept below the base.
pub fn store_path(base: &str) -> (r: String)
    ensures
        r@ == kept_at(base@),
{
    paths::join_path(paths::join_path(base, "keyd-viz").as_str(), "layouts.tsv")
}

// ---------------------------------------------------------------------------
// The table
// ---------------------------------------------------------------------------

/// A line of the table.
pub struct RowView {
    pub id: Seq<char>,
    pub path: Seq<char>,
}

/// The row of a line: what stands before and behind its first tab.
pub open spec fn row_of(line: Seq<char>) -> Option<RowView>
    decreases line.len(),
{
    if line.len() == 0 {
        None
    } else if line[0] == '\t' {
        Some(RowView { id: Seq::empty(), path: line.subrange(1, line.len() as int) })
    } else {
        match row_of(line.subrange(1, line.len() as int)) {
            Some(r) => Some(RowView { id: seq![line[0]] + r.id, path: r.path }),
            None => None,
        }
    }
}

/// The rows among the lines.
pub open spec fn rows_of(lines: Seq<Seq<char>>) -> Seq<RowView>
    decreases lines.len(),
{
    if lines.len() == 0 {
        Seq::empty()
    } else {
        let before = rows_of(lines.drop_last());
        match row_of(lines.last()) {
            Some(r) => before.push(r),
            None => before,
        }
    }
}

/// The rows of a table.
pub open spec fn table(file: Seq<char>) -> Seq<RowView> {
    rows_of(text::lines(file))
}

/// The id of the first row for the path.
pub open spec fn choice(rows: Seq<RowView>, path: Seq<char>) -> Option<Seq<char>>
    decreases rows.len(),
{
    if rows.len() == 0 {
        None
    } else {
        match choice(rows.drop_last(), path) {
            Some(id) => Some(id),
            None => if rows.last().path == path {
                Some(rows.last().id)
            } else {
                None
            },
        }
    }
}

/// The rows for other paths.
pub open spec fn others(rows: Seq<RowView>, path: Seq<char>) -> Seq<RowView>
    decreases rows.len(),
{
    if rows.len() == 0 {
        Seq::empty()
    } else {
        let before = others(rows.drop_last(), path);
        if rows.last().path == path {
            before
        } else {
            before.push(rows.last())
        }
    }
}

/// The text of a row, without the end of its line.
pub open spec fn row_text(r: RowView) -> Seq<char> {
    r.id + seq!['\t'] + r.path
}

/// The text of a table.
pub open spec fn body(rows: Seq<RowView>) -> Seq<char>
    decreases rows.len(),
{
    if rows.len() == 0 {
        Seq::empty()
    } else {
        body(rows.drop_last()) + row_text(rows.last()) + seq!['\n']
    }
}

/// The table with the id chosen for the path in place of what was chosen before.
pub open spec fn chosen(file: Seq<char>, path: Seq<char>, id: Seq<char>) -> Seq<char> {
    body(others(table(file), path).push(RowView { id, path }))
}

struct Row {
    id: String,
    path: String,
}

impl View for Row {
    type V = RowView;

    closed spec fn view(&self) -> RowView {
        RowView { id: self.id@, path: self.path@ }
    }
}

proof fn row_of_at(line: Seq<char>, i: int)
    requires
        0 <= i < line.len(),
        line[i] == '\t',
        forall|j: int| 0 <= j < i ==> #[trigger] line[j] != '\t',
    ensures
        row_of(line) == Some(
            RowView { id: line.subrange(0, i), path: line.subrange(i + 1, line.len() as int) },
        ),
    decreases line.len(),
{
    if i == 0 {
        assert(line.subrange(0, 0) =~= Seq::<char>::empty());
    } else {
        let t = line.subrange(1, line.len() as int);
        assert(line[0] != '\t');
        assert forall|j: int| 0 <= j < i - 1 implies #[trigger] t[j] != '\t' by {
            assert(line[j + 1] != '\t');
        }
        row_of_at(t, i - 1);
        assert(seq![line[0]] + t.subrange(0, i - 1) =~= line.subrange(0, i));
        assert(t.subrange(i, t.len() as int) =~= line.subrange(i + 1, line.len() as int));
    }
}

proof fn row_of_none(line: Seq<char>)
    requires
        !line.contains('\t'),
    ensures
        row_of(line) is None,
    decreases line.len(),
{
    if line.len() > 0 {
        let t = line.subrange(1, line.len() as int);
        assert forall|j: int| 0 <= j < t.len() implies t[j] != '\t' by {
            assert(line.contains(line[j + 1]));
        }
        assert(line.contains(line[0]));
        row_of_none(t);
    }
}

/// The row of a line.
fn read_row(line: &str) -> (r: Option<Row>)
    ensures
        match r {
            Some(x) => row_of(line@) == Some(x@),
            None => row_of(line@) is None,
        },
{
    let v = strings::chars(line);
    let mut i: usize = 0;
    while i < v.len()
        invariant
            i <= v@.len(),
            v@ == line@,
            forall|j: int| 0 <= j < i ==> #[trigger] v@[j] != '\t',
        decreases v.len() - i,
    {
        if v[i] == '\t' {
            proof {
                row_of_at(line@, i as int);
            }
            let n: usize = v.len();
            return Some(Row { id: strings::slice(&v, 0, i), path: strings::slice(&v, i + 1, n) });
        }
        i = i + 1;
    }
    proof {
        row_of_none(line@);
    }
    None
}

/// The rows of a table.
fn read_table(file: &str) -> (r: Vec<Row>)
    ensures
        text::views(r@) == table(file@),
{
    let lines = strings::lines(file);
    let ghost all = text::lines(file@);
    assert(lines@.len() == all.len());
    let mut r: Vec<Row> = Vec::new();
    let mut i: usize = 0;
    assert(text::views(r@) =~= Seq::<RowView>::empty());
    while i < lines.len()
        invariant
            i <= lines@.len(),
            text::texts(lines@) == all,
            text::views(r@) == rows_of(all.subrange(0, i as int)),
        decreases lines.len() - i,
    {
        let ghost next = all.subrange(0, i + 1);
        assert(next.drop_last() =~= all.subrange(0, i as int));
        assert(next.last() == lines@[i as int]@);
        if let Some(x) = read_row(lines[i].as_str()) {
            let ghost before = text::views(r@);
            let ghost xv = x@;
            r.push(x);
            assert(text::views(r@) =~= before.push(xv));
        }
        i = i + 1;
    }
    assert(all.subrange(0, i as int) =~= all);
    r
}

proof fn choice_is_stable(rows: Seq<RowView>, path: Seq<char>, n: int)
    requires
        0 <= n <= rows.len(),
        choice(rows.subrange(0, n), path) is Some,
    ensures
        choice(rows, path) == choice(rows.subrange(0, n), path),
    decreases rows.len(),
{
    if n < rows.len() {
        assert(rows.drop_last().subrange(0, n) =~= rows.subrange(0, n));
        choice_is_stable(rows.drop_last(), path, n);
    } else {
        assert(rows.subrange(0, n) =~= rows);
    }
}

/// The layout id saved in the table for a config path, if any.
pub fn load(file: &str, config_path: &str) -> (r: Option<String>)
    ensures
        text::opt(r) == choice(table(file@), config_path@),
{
    let rows = read_table(file);
    let ghost all = table(file@);
    let mut i: usize = 0;
    while i < rows.len()
        invariant
            i <= rows@.len(),
            all == table(file@),
            text::views(rows@) == all,
            choice(all.subrange(0, i as int), config_path@) is None,
        decreases rows.len() - i,
    {
        let ghost next = all.subrange(0, i + 1);
        assert(next.drop_last() =~= all.subrange(0, i as int));
        assert(next.last() == rows@[i as int]@);
        if strings::same(rows[i].path.as_str(), config_path) {
            proof {
                choice_is_stable(all, config_path@, i + 1);
            }
            return Some(strings::copy(rows[i].id.as_str()));
        }
        i = i + 1;
    }
    assert(all.subrange(0, i as int) =~= all);
    None
}

/// Append a row to the text of a table.
fn write_row(out: &mut String, id: &str, path: &str)
    ensures
        final(out)@ == old(out)@ + row_text(RowView { id: id@, path: path@ }) + seq!['\n'],
{
    let ghost before = out@;
    out.append(id);
    out.push('\t');
    out.append(path);
    out.push('\n');
    assert(out@ =~= before + (id@ + seq!['\t'] + path@) + seq!['\n']);
}

/// The table with the layout id chosen for a config path: any earlier choice for it goes,
/// and the new one comes last.
pub fn save(file: &str, config_path: &str, layout_id: &str) -> (r: String)
    ensures
        r@ == chosen(file@, config_path@, layout_id@),
{
    let rows = read_table(file);
    let ghost all = table(file@);
    let mut out = String::new();
    let mut i: usize = 0;
    while i < rows.len()
        invariant
            i <= rows@.len(),
            text::views(rows@) == all,
            out@ == body(others(all.subrange(0, i as int), config_path@)),
        decreases rows.len() - i,
    {
        let ghost next = all.subrange(0, i + 1);
        assert(next.drop_last() =~= all.subrange(0, i as int));
        assert(next.last() == rows@[i as int]@);
        if !strings::same(rows[i].path.as_str(), config_path) {
            let ghost before = others(all.subrange(0, i as int), config_path@);
            assert(before.push(next.last()).drop_last() =~= before);
            write_row(&mut out, rows[i].id.as_str(), rows[i].path.as_str());
        }
        i = i + 1;
    }
    assert(all.subrange(0, i as int) =~= all);
    let ghost before = others(all, config_path@);
    let ghost one = RowView { id: layout_id@, path: config_path@ };
    assert(before.push(one).drop_last() =~= before);
    write_row(&mut out, layout_id, config_path);
    out
}

// ---------------------------------------------------------------------------
// What is read back
// ---------------------------------------------------------------------------

/// A row that stays one line: no newline in it, and no tab in front of its path.
pub open spec fn one_line(r: RowView) -> bool {
    !r.id.contains('\n') && !r.path.contains('\n') && !r.id.contains('\t')
}

/// The row as it is read back from a line: a carriage return at its end is taken for the
/// end of the line.
pub open spec fn read_back(r: RowView) -> RowView {
    if r.path.len() > 0 && r.path.last() == '\r' {
        RowView { id: r.id, path: r.path.drop_last() }
    } else {
        r
    }
}

proof fn text_of_row_reads_back(r: RowView)
    requires
        one_line(r),
    ensures
        row_of(text::chop_cr(row_text(r))) == Some(read_back(r)),
        !row_text(r).contains('\n'),
{
    let t = row_text(r);
    assert forall|i: int| 0 <= i < t.len() implies t[i] != '\n' by {
        if i < r.id.len() {
            assert(r.id.contains(r.id[i]));
        } else if i > r.id.len() {
            assert(r.path.contains(r.path[i - r.id.len() - 1]));
        }
    }
    let b = read_back(r);
    let c = text::chop_cr(t);
    assert(c =~= row_text(b)) by {
        if r.path.len() > 0 {
            assert(t.last() == r.path.last());
        } else {
            assert(t.last() == '\t');
        }
    }
    let n = r.id.len() as int;
    assert forall|j: int| 0 <= j < n implies #[trigger] c[j] != '\t' by {
        assert(r.id.contains(r.id[j]));
    }
    row_of_at(c, n);
    assert(c.subrange(0, n) =~= b.id);
    assert(c.subrange(n + 1, c.len() as int) =~= b.path);
}

/// Every row stays one line.
pub open spec fn all_one_line(rows: Seq<RowView>) -> bool {
    forall|i: int| 0 <= i < rows.len() ==> one_line(#[trigger] rows[i])
}

/// The rows as they are read back.
pub open spec fn all_read_back(rows: Seq<RowView>) -> Seq<RowView> {
    Seq::new(rows.len(), |i: int| read_back(rows[i]))
}

/// A text that is empty or ends its last line.
pub open spec fn ends_lines(s: Seq<char>) -> bool {
    s.len() == 0 || s.last() == '\n'
}

proof fn lines_of_more(s: Seq<char>, line: Seq<char>)
    requires
        ends_lines(s),
        !line.contains('\n'),
    ensures
        text::lines(s + line + seq!['\n']) == text::lines(s).push(text::chop_cr(line)),
{
    let all = s + line + seq!['\n'];
    if s.len() == 0 {
        assert(all =~= line.push('\n') + Seq::<char>::empty());
        text::split_at_separator(line, '\n', Seq::<char>::empty());
        text::split_without_separator(line, '\n');
        assert(text::split(Seq::<char>::empty(), '\n') =~= seq![Seq::<char>::empty()]);
        assert(text::split(all, '\n') =~= seq![line, Seq::<char>::empty()]);
        assert(text::split(s, '\n') =~= seq![Seq::<char>::empty()]);
        assert(text::lines(all) =~= text::lines(s).push(text::chop_cr(line)));
    } else {
        let a = s.drop_last();
        let rest = line.push('\n');
        assert(s =~= a.push('\n') + Seq::<char>::empty());
        assert(all =~= a.push('\n') + rest);
        text::split_at_separator(a, '\n', Seq::<char>::empty());
        text::split_at_separator(a, '\n', rest);
        text::split_at_separator(line, '\n', Seq::<char>::empty());
        assert(rest =~= line.push('\n') + Seq::<char>::empty());
        text::split_without_separator(line, '\n');
        let e = Seq::<char>::empty();
        assert(text::split(e, '\n') =~= seq![e]);
        let p = text::split(a, '\n');
        assert(text::split(s, '\n') =~= p.push(e));
        assert(text::split(all, '\n') =~= p.push(line).push(e));
        assert(text::lines(all) =~= text::lines(s).push(text::chop_cr(line)));
    }
}

proof fn body_reads_back(rows: Seq<RowView>)
    requires
        all_one_line(rows),
    ensures
        ends_lines(body(rows)),
        table(body(rows)) == all_read_back(rows),
    decreases rows.len(),
{
    if rows.len() == 0 {
        assert(text::split(Seq::<char>::empty(), '\n') =~= seq![Seq::<char>::empty()]);
        assert(text::lines(Seq::<char>::empty()) =~= Seq::<Seq<char>>::empty());
        assert(all_read_back(rows) =~= Seq::<RowView>::empty());
    } else {
        let t = rows.drop_last();
        let last = rows.last();
        assert forall|i: int| 0 <= i < t.len() implies one_line(#[trigger] t[i]) by {
            assert(t[i] == rows[i]);
        }
        body_reads_back(t);
        assert(one_line(rows[rows.len() - 1]));
        text_of_row_reads_back(last);
        let line = row_text(last);
        lines_of_more(body(t), line);
        let ls = text::lines(body(t)).push(text::chop_cr(line));
        assert(ls.drop_last() =~= text::lines(body(t)));
        assert(all_read_back(rows) =~= all_read_back(t).push(read_back(last)));
    }
}

proof fn rows_of_lines_are_one_line(lines: Seq<Seq<char>>)
    requires
        forall|i: int| 0 <= i < lines.len() ==> !(#[trigger] lines[i]).contains('\n'),
    ensures
        all_one_line(rows_of(lines)),
    decreases lines.len(),
{
    if lines.len() > 0 {
        let t = lines.drop_last();
        assert forall|i: int| 0 <= i < t.len() implies !(#[trigger] t[i]).contains('\n') by {
            assert(t[i] == lines[i]);
        }
        rows_of_lines_are_one_line(t);
        assert(!lines[lines.len() - 1].contains('\n'));
        row_of_is_one_line(lines.last());
    }
}

proof fn row_of_is_one_line(line: Seq<char>)
    requires
        !line.contains('\n'),
    ensures
        row_of(line) is Some ==> one_line(row_of(line)->0),
    decreases line.len(),
{
    if line.len() > 0 {
        let t = line.subrange(1, line.len() as int);
        assert forall|j: int| 0 <= j < t.len() implies t[j] != '\n' by {
            assert(line.contains(line[j + 1]));
        }
        row_of_is_one_line(t);
        assert(line.contains(line[0]));
        if row_of(line) is Some && line[0] != '\t' {
            let r = row_of(t)->0;
            let id = seq![line[0]] + r.id;
            assert forall|j: int| 0 <= j < id.len() implies id[j] != '\n' && id[j] != '\t' by {
                if j > 0 {
                    assert(r.id.contains(r.id[j - 1]));
                }
            }
        }
    }
}

proof fn split_pieces_lack_separator(s: Seq<char>, sep: char)
    ensures
        forall|i: int|
            0 <= i < text::split(s, sep).len() ==> !(#[trigger] text::split(s, sep)[i]).contains(
                sep,
            ),
    decreases s.len(),
{
    if s.len() > 0 {
        let t = s.drop_last();
        split_pieces_lack_separator(t, sep);
        text::split_has_a_piece(t, sep);
        let before = text::split(t, sep);
        let now = text::split(s, sep);
        assert forall|i: int| 0 <= i < now.len() implies !(#[trigger] now[i]).contains(sep) by {
            if i < before.len() - 1 {
                assert(now[i] == before[i]);
            } else if s.last() != sep {
                let p = before.last();
                assert(!before[before.len() - 1].contains(sep));
                assert(now[i] =~= p.push(s.last()));
                if now[i].contains(sep) {
                    let k = choose|k: int| 0 <= k < now[i].len() && now[i][k] == sep;
                    if k < p.len() {
                        assert(p.contains(p[k]));
                    }
                }
            } else if i == before.len() - 1 {
                assert(now[i] == before[i]);
            }
        }
    }
}

proof fn table_rows_are_one_line(file: Seq<char>)
    ensures
        all_one_line(table(file)),
{
    split_pieces_lack_separator(file, '\n');
    let pieces = text::split(file, '\n');
    let ls = text::lines(file);
    text::split_has_a_piece(file, '\n');
    assert forall|i: int| 0 <= i < ls.len() implies !(#[trigger] ls[i]).contains('\n') by {
        let p = pieces[i];
        assert(!p.contains('\n'));
        if ls[i].contains('\n') {
            let k = choose|k: int| 0 <= k < ls[i].len() && ls[i][k] == '\n';
            assert(p[k] == '\n');
            assert(p.contains(p[k]));
        }
    }
    rows_of_lines_are_one_line(ls);
}

proof fn others_are_rows(rows: Seq<RowView>, path: Seq<char>)
    requires
        all_one_line(rows),
    ensures
        all_one_line(others(rows, path)),
        forall|i: int|
            0 <= i < others(rows, path).len() ==> rows.contains(#[trigger] others(rows, path)[i])
                && others(rows, path)[i].path != path,
    decreases rows.len(),
{
    if rows.len() > 0 {
        let t = rows.drop_last();
        assert forall|i: int| 0 <= i < t.len() implies one_line(#[trigger] t[i]) by {
            assert(t[i] == rows[i]);
        }
        others_are_rows(t, path);
        assert(one_line(rows[rows.len() - 1]));
        let before = others(t, path);
        let now = others(rows, path);
        assert forall|i: int| 0 <= i < now.len() implies rows.contains(#[trigger] now[i])
            && now[i].path != path by {
            if i < before.len() {
                assert(now[i] == before[i]);
                let k = choose|k: int| 0 <= k < t.len() && t[k] == before[i];
                assert(rows[k] == now[i]);
            } else {
                assert(rows[rows.len() - 1] == now[i]);
            }
        }
        assert forall|i: int| 0 <= i < now.len() implies one_line(#[trigger] now[i]) by {
            if i < before.len() {
                assert(now[i] == before[i]);
            }
        }
    }
}

proof fn no_choice(rows: Seq<RowView>, path: Seq<char>)
    requires
        forall|i: int| 0 <= i < rows.len() ==> (#[trigger] rows[i]).path != path,
    ensures
        choice(rows, path) is None,
    decreases rows.len(),
{
    if rows.len() > 0 {
        let t = rows.drop_last();
        assert forall|i: int| 0 <= i < t.len() implies (#[trigger] t[i]).path != path by {
            assert(t[i] == rows[i]);
        }
        no_choice(t, path);
        assert(rows[rows.len() - 1].path != path);
    }
}

/// What was saved is loaded again: after a choice is saved, the table gives it back.
/// The id must hold neither tab nor newline and the path no newline nor a carriage return
/// at its end, for the table to hold them; and the table must not hold the path followed
/// by a carriage return, which reading would take for the path itself.
pub proof fn saved_choice_is_loaded(file: Seq<char>, path: Seq<char>, id: Seq<char>)
    requires
        one_line(RowView { id, path }),
        path.len() > 0 ==> path.last() != '\r',
        forall|i: int| 0 <= i < table(file).len() ==> (#[trigger] table(file)[i]).path != path.push(
            '\r',
        ),
    ensures
        choice(table(chosen(file, path, id)), path) == Some(id),
{
    let old_rows = table(file);
    table_rows_are_one_line(file);
    others_are_rows(old_rows, path);
    let kept = others(old_rows, path);
    let one = RowView { id, path };
    let rows = kept.push(one);
    assert(all_one_line(rows)) by {
        assert forall|i: int| 0 <= i < rows.len() implies one_line(#[trigger] rows[i]) by {
            if i < kept.len() {
                assert(rows[i] == kept[i]);
            }
        }
    }
    body_reads_back(rows);
    let got = all_read_back(rows);
    assert(got.drop_last() =~= all_read_back(kept));
    assert(got.last() == one);
    let before = got.drop_last();
    assert forall|i: int| 0 <= i < before.len() implies (#[trigger] before[i]).path != path by {
        let r = kept[i];
        assert(old_rows.contains(r) && r.path != path);
        let k = choose|k: int| 0 <= k < old_rows.len() && old_rows[k] == r;
        assert(old_rows[k].path != path.push('\r'));
        if r.path.len() > 0 && r.path.last() == '\r' && r.path.drop_last() == path {
            assert(r.path =~= path.push('\r'));
        }
    }
    no_choice(before, path);
}

proof fn choice_among_others(rows: Seq<RowView>, path: Seq<char>, q: Seq<char>)
    requires
        q != path,
        q.len() > 0 ==> q.last() != '\r',
        forall|i: int| 0 <= i < rows.len() ==> (#[trigger] rows[i]).path != q.push('\r'),
    ensures
        choice(all_read_back(others(rows, path)), q) == choice(rows, q),
    decreases rows.len(),
{
    if rows.len() > 0 {
        let t = rows.drop_last();
        let last = rows.last();
        assert forall|i: int| 0 <= i < t.len() implies (#[trigger] t[i]).path != q.push('\r') by {
            assert(t[i] == rows[i]);
        }
        choice_among_others(t, path, q);
        assert(rows[rows.len() - 1].path != q.push('\r'));
        if last.path != path {
            let before = others(t, path);
            let now = all_read_back(before.push(last));
            assert(now.drop_last() =~= all_read_back(before));
            assert(now.last() == read_back(last));
            if last.path.len() > 0 && last.path.last() == '\r' && last.path.drop_last() == q {
                assert(last.path =~= q.push('\r'));
            }
        }
    } else {
        assert(all_read_back(others(rows, path)) =~= Seq::<RowView>::empty());
    }
}

/// Saving a choice for one config leaves that of every other as it was, with the same
/// exceptions for carriage returns.
pub proof fn saving_leaves_other_choices(
    file: Seq<char>,
    path: Seq<char>,
    id: Seq<char>,
    other: Seq<char>,
)
    requires
        one_line(RowView { id, path }),
        path.len() > 0 ==> path.last() != '\r',
        other != path,
        other.len() > 0 ==> other.last() != '\r',
        forall|i: int|
            0 <= i < table(file).len() ==> (#[trigger] table(file)[i]).path != other.push('\r'),
    ensures
        choice(table(chosen(file, path, id)), other) == choice(table(file), other),
{
    let old_rows = table(file);
    table_rows_are_one_line(file);
    others_are_rows(old_rows, path);
    let kept = others(old_rows, path);
    let one = RowView { id, path };
    let rows = kept.push(one);
    assert(all_one_line(rows)) by {
        assert forall|i: int| 0 <= i < rows.len() implies one_line(#[trigger] rows[i]) by {
            if i < kept.len() {
                assert(rows[i] == kept[i]);
            }
        }
    }
    body_reads_back(rows);
    choice_among_others(old_rows, path, other);
    let got = all_read_back(rows);
    assert(got.drop_last() =~= all_read_back(kept));
    assert(got.last() == one);
}

/// The table is kept under the base that the environment sets, and where it sets none under
/// `.config` in the home directory; without either there is no place for it.
pub proof fn the_environment_decides_the_base(base: Seq<char>, home: Seq<char>)
    requires
        base.len() > 0,
        base.last() != '/',
        home.len() > 0,
        home.last() != '/',
    ensures
        config_base(Some(base), Some(home)) == Some(base),
        config_base(Some(base), None) == Some(base),
        config_base(None, Some(home)) == Some(home + "/.config"@),
        config_base(None, None) is None,
        kept_at(base) == base + "/keyd-viz/layouts.tsv"@,
{
    reveal_strlit(".config");
    reveal_strlit("/.config");
    reveal_strlit("keyd-viz");
    reveal_strlit("layouts.tsv");
    reveal_strlit("/keyd-viz/layouts.tsv");
    paths::joining_keeps_absolute_paths(home, ".config"@);
    assert(paths::join(home, ".config"@) =~= home + "/.config"@);
    let dir = paths::join(base, "keyd-viz"@);
    paths::joining_keeps_absolute_paths(base, "keyd-viz"@);
    assert(dir.last() == 'z');
    paths::joining_keeps_absolute_paths(dir, "layouts.tsv"@);
    assert(kept_at(base) =~= base + "/keyd-viz/layouts.tsv"@);
}

/// The first row for a path counts, and a path without a row has no choice.
pub proof fn the_first_row_counts(rows: Seq<RowView>, path: Seq<char>, i: int)
    requires
        0 <= i < rows.len(),
        rows[i].path == path,
        forall|j: int| 0 <= j < i ==> (#[trigger] rows[j]).path != path,
    ensures
        choice(rows, path) == Some(rows[i].id),
    decreases rows.len(),
{
    let t = rows.drop_last();
    if i < t.len() {
        the_first_row_counts(t, path, i);
    } else {
        no_choice(t, path);
    }
}

/// The new choice is written as the last line of the table: the id, a tab and the path.
pub proof fn the_new_choice_comes_last(file: Seq<char>, path: Seq<char>, id: Seq<char>)
    ensures
        exists|front: Seq<char>|
            chosen(file, path, id) == #[trigger] (front + (id + seq!['\t'] + path + seq!['\n'])),
{
    let rows = others(table(file), path).push(RowView { id, path });
    assert(rows.drop_last() =~= others(table(file), path));
    let front = body(rows.drop_last());
    assert(chosen(file, path, id) =~= front + (id + seq!['\t'] + path + seq!['\n']));
}

} // verus!
