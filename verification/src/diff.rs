//! The line diff that is shown before a config is installed or applied.
//!
//! Only the lines that actually changed are shown, found by a longest common
//! subsequence, so that changes scattered over the file do not drag untouched lines
//! (section headers especially) into the diff.

use crate::strings;
use crate::text;
use vstd::prelude::*;

verus! {

/// The length of a longest common subsequence of `a` from line `i` on and `b` from line
/// `j` on.
pub open spec fn common(a: Seq<Seq<char>>, b: Seq<Seq<char>>, i: nat, j: nat) -> nat
    decreases a.len() - i, b.len() - j,
{
    if i >= a.len() || j >= b.len() {
        0
    } else if a[i as int] == b[j as int] {
        common(a, b, i + 1, j + 1) + 1
    } else {
        let without_old = common(a, b, i + 1, j);
        let without_new = common(a, b, i, j + 1);
        if without_old >= without_new {
            without_old
        } else {
            without_new
        }
    }
}

/// What becomes of a line on the way from the old text to the new one.
pub enum Change {
    Same(Seq<char>),
    Removed(Seq<char>),
    Added(Seq<char>),
}

/// The way from `a`, from line `i` on, to `b`, from line `j` on: equal lines stay, and
/// where the lines differ the one goes whose going leaves more in common, the old one
/// first.
pub open spec fn changes(a: Seq<Seq<char>>, b: Seq<Seq<char>>, i: nat, j: nat) -> Seq<Change>
    decreases a.len() - i, b.len() - j,
{
    if i < a.len() && j < b.len() {
        if a[i as int] == b[j as int] {
            seq![Change::Same(a[i as int])] + changes(a, b, i + 1, j + 1)
        } else if common(a, b, i + 1, j) >= common(a, b, i, j + 1) {
            seq![Change::Removed(a[i as int])] + changes(a, b, i + 1, j)
        } else {
            seq![Change::Added(b[j as int])] + changes(a, b, i, j + 1)
        }
    } else if i < a.len() {
        seq![Change::Removed(a[i as int])] + changes(a, b, i + 1, j)
    } else if j < b.len() {
        seq![Change::Added(b[j as int])] + changes(a, b, i, j + 1)
    } else {
        Seq::empty()
    }
}

/// A change as it is shown: lines that stay are not.
pub open spec fn shown(c: Change) -> Seq<char> {
    match c {
        Change::Same(_) => Seq::empty(),
        Change::Removed(l) => "- "@ + l + "\n"@,
        Change::Added(l) => "+ "@ + l + "\n"@,
    }
}

/// All changes as they are shown.
pub open spec fn render(list: Seq<Change>) -> Seq<char>
    decreases list.len(),
{
    if list.len() == 0 {
        Seq::empty()
    } else {
        shown(list[0]) + render(list.skip(1))
    }
}

/// The line diff of two texts.
pub open spec fn diff_of(old: Seq<char>, new: Seq<char>) -> Seq<char> {
    render(changes(text::lines(old), text::lines(new), 0, 0))
}

proof fn common_is_bounded(a: Seq<Seq<char>>, b: Seq<Seq<char>>, i: nat, j: nat)
    requires
        i <= a.len(),
        j <= b.len(),
    ensures
        common(a, b, i, j) <= b.len() - j,
    decreases a.len() - i, b.len() - j,
{
    if i < a.len() && j < b.len() {
        common_is_bounded(a, b, i + 1, j + 1);
        common_is_bounded(a, b, i + 1, j);
        common_is_bounded(a, b, i, j + 1);
    }
}

/// One row of the table: how much `a` from line `i` on has in common with each end of
/// `b`, the empty end first.
spec fn is_row(row: Seq<usize>, a: Seq<Seq<char>>, b: Seq<Seq<char>>, i: nat) -> bool {
    forall|q: int|
        0 <= q < row.len() ==> #[trigger] row[q] as nat == common(a, b, i, (b.len() - q) as nat)
}

/// The row before `next`, for one line of `a` more.
fn next_row(a: &Vec<String>, b: &Vec<String>, i: usize, next: &Vec<usize>) -> (r: Vec<usize>)
    requires
        i < a@.len(),
        next@.len() == b@.len() + 1,
        is_row(next@, text::texts(a@), text::texts(b@), (i + 1) as nat),
    ensures
        r@.len() == b@.len() + 1,
        is_row(r@, text::texts(a@), text::texts(b@), i as nat),
{
    let ghost old = text::texts(a@);
    let ghost new = text::texts(b@);
    let mut row: Vec<usize> = Vec::new();
    row.push(0);
    let n: usize = b.len();
    let mut q: usize = 0;
    while q < n
        invariant
            q <= n,
            n == b@.len(),
            i < a@.len(),
            next@.len() == n + 1,
            row@.len() == q + 1,
            old == text::texts(a@),
            new == text::texts(b@),
            is_row(next@, old, new, (i + 1) as nat),
            is_row(row@, old, new, i as nat),
        decreases n - q,
    {
        let j: usize = n - q - 1;
        assert(old[i as int] == a@[i as int]@ && new[j as int] == b@[j as int]@);
        assert(next@[q as int] as nat == common(old, new, (i + 1) as nat, (new.len() - q) as nat));
        assert(row@[q as int] as nat == common(old, new, i as nat, (new.len() - q) as nat));
        assert(next@[q + 1] as nat == common(
            old,
            new,
            (i + 1) as nat,
            (new.len() - (q + 1)) as nat,
        ));
        proof {
            common_is_bounded(old, new, (i + 1) as nat, (j + 1) as nat);
        }
        let v: usize = if strings::same(a[i].as_str(), b[j].as_str()) {
            next[q] + 1
        } else if next[q + 1] >= row[q] {
            next[q + 1]
        } else {
            row[q]
        };
        assert(v as nat == common(old, new, i as nat, j as nat));
        let ghost before = row@;
        row.push(v);
        assert(is_row(row@, old, new, i as nat)) by {
            assert forall|k: int| 0 <= k < row@.len() implies #[trigger] row@[k] as nat == common(
                old,
                new,
                i as nat,
                (new.len() - k) as nat,
            ) by {
                if k < before.len() {
                    assert(row@[k] == before[k]);
                }
            }
        }
        q = q + 1;
    }
    row
}

/// The whole table: rows for each end of `a`, the empty end first.
fn common_table(a: &Vec<String>, b: &Vec<String>) -> (r: Vec<Vec<usize>>)
    ensures
        r@.len() == a@.len() + 1,
        forall|p: int|
            0 <= p < r@.len() ==> (#[trigger] r@[p])@.len() == b@.len() + 1 && is_row(
                r@[p]@,
                text::texts(a@),
                text::texts(b@),
                (a@.len() - p) as nat,
            ),
{
    let ghost old = text::texts(a@);
    let ghost new = text::texts(b@);
    let mut first: Vec<usize> = Vec::new();
    first.push(0);
    let mut q: usize = 0;
    let n: usize = b.len();
    while q < n
        invariant
            q <= n,
            first@.len() == q + 1,
            forall|k: int| 0 <= k < first@.len() ==> #[trigger] first@[k] == 0,
        decreases n - q,
    {
        first.push(0);
        q = q + 1;
    }
    let mut table: Vec<Vec<usize>> = Vec::new();
    assert(is_row(first@, old, new, old.len()));
    table.push(first);
    let m: usize = a.len();
    let mut p: usize = 0;
    while p < m
        invariant
            p <= m,
            m == a@.len(),
            table@.len() == p + 1,
            old == text::texts(a@),
            new == text::texts(b@),
            forall|k: int|
                0 <= k < table@.len() ==> (#[trigger] table@[k])@.len() == b@.len() + 1 && is_row(
                    table@[k]@,
                    old,
                    new,
                    (a@.len() - k) as nat,
                ),
        decreases m - p,
    {
        let i: usize = m - p - 1;
        assert(table@[p as int]@.len() == b@.len() + 1);
        let row = next_row(a, b, i, &table[p]);
        table.push(row);
        p = p + 1;
    }
    table
}

proof fn render_first(c: Change, rest: Seq<Change>)
    ensures
        render(seq![c] + rest) == shown(c) + render(rest),
{
    let all = seq![c] + rest;
    assert(all.skip(1) =~= rest);
}

/// A compact diff with `- old` and `+ new` lines, in file order, showing only the lines
/// that changed.
pub fn line_diff(old: &str, new: &str) -> (r: String)
    ensures
        r@ == diff_of(old@, new@),
{
    let a = strings::lines(old);
    let b = strings::lines(new);
    let ghost olds = text::texts(a@);
    let ghost news = text::texts(b@);
    let table = common_table(&a, &b);
    let m: usize = a.len();
    let n: usize = b.len();
    let mut out = String::new();
    let mut i: usize = 0;
    let mut j: usize = 0;
    assert(out@ + render(changes(olds, news, 0, 0)) =~= render(changes(olds, news, 0, 0)));
    while i < m || j < n
        invariant
            i <= m,
            j <= n,
            m == a@.len(),
            n == b@.len(),
            olds == text::texts(a@),
            news == text::texts(b@),
            table@.len() == m + 1,
            forall|p: int|
                0 <= p < table@.len() ==> (#[trigger] table@[p])@.len() == n + 1 && is_row(
                    table@[p]@,
                    olds,
                    news,
                    (a@.len() - p) as nat,
                ),
            out@ + render(changes(olds, news, i as nat, j as nat)) == render(
                changes(olds, news, 0, 0),
            ),
        decreases (m - i) + (n - j),
    {
        let ghost before = out@;
        let ghost all = render(changes(olds, news, 0, 0));
        assert(i < m ==> olds[i as int] == a@[i as int]@);
        assert(j < n ==> news[j as int] == b@[j as int]@);
        let both = i < m && j < n;
        if both && strings::same(a[i].as_str(), b[j].as_str()) {
            proof {
                render_first(
                    Change::Same(olds[i as int]),
                    changes(olds, news, (i + 1) as nat, (j + 1) as nat),
                );
            }
            assert(before + (Seq::<char>::empty() + render(
                changes(olds, news, (i + 1) as nat, (j + 1) as nat),
            )) =~= before + render(changes(olds, news, (i + 1) as nat, (j + 1) as nat)));
            i = i + 1;
            j = j + 1;
        } else {
            let remove = if both {
                let p: usize = m - i;
                let q: usize = n - j;
                assert(table@[p as int]@.len() == n + 1);
                assert(table@[p - 1]@.len() == n + 1);
                assert(table@[p - 1]@[q as int] as nat == common(
                    olds,
                    news,
                    (i + 1) as nat,
                    j as nat,
                ));
                assert(table@[p as int]@[q - 1] as nat == common(
                    olds,
                    news,
                    i as nat,
                    (j + 1) as nat,
                ));
                table[p - 1][q] >= table[p][q - 1]
            } else {
                i < m
            };
            if remove {
                out.append("- ");
                out.append(a[i].as_str());
                out.append("\n");
                proof {
                    let rest = changes(olds, news, (i + 1) as nat, j as nat);
                    render_first(Change::Removed(olds[i as int]), rest);
                    assert(before + (("- "@ + olds[i as int] + "\n"@) + render(rest)) =~= before
                        + "- "@ + olds[i as int] + "\n"@ + render(rest));
                }
                i = i + 1;
            } else {
                out.append("+ ");
                out.append(b[j].as_str());
                out.append("\n");
                proof {
                    let rest = changes(olds, news, i as nat, (j + 1) as nat);
                    render_first(Change::Added(news[j as int]), rest);
                    assert(before + (("+ "@ + news[j as int] + "\n"@) + render(rest)) =~= before
                        + "+ "@ + news[j as int] + "\n"@ + render(rest));
                }
                j = j + 1;
            }
        }
    }
    assert(out@ + Seq::<char>::empty() =~= out@);
    out
}

/// The lines that a way starts from.
pub open spec fn old_lines(list: Seq<Change>) -> Seq<Seq<char>>
    decreases list.len(),
{
    if list.len() == 0 {
        Seq::empty()
    } else {
        match list[0] {
            Change::Same(l) => seq![l] + old_lines(list.skip(1)),
            Change::Removed(l) => seq![l] + old_lines(list.skip(1)),
            Change::Added(_) => old_lines(list.skip(1)),
        }
    }
}

/// The lines that a way leads to.
pub open spec fn new_lines(list: Seq<Change>) -> Seq<Seq<char>>
    decreases list.len(),
{
    if list.len() == 0 {
        Seq::empty()
    } else {
        match list[0] {
            Change::Same(l) => seq![l] + new_lines(list.skip(1)),
            Change::Removed(_) => new_lines(list.skip(1)),
            Change::Added(l) => seq![l] + new_lines(list.skip(1)),
        }
    }
}

/// How many lines a way removes or adds.
pub open spec fn cost(list: Seq<Change>) -> nat
    decreases list.len(),
{
    if list.len() == 0 {
        0
    } else {
        let rest = cost(list.skip(1));
        if list[0] is Same {
            rest
        } else {
            rest + 1
        }
    }
}

proof fn ways_lead(a: Seq<Seq<char>>, b: Seq<Seq<char>>, i: nat, j: nat)
    requires
        i <= a.len(),
        j <= b.len(),
    ensures
        old_lines(changes(a, b, i, j)) == a.skip(i as int),
        new_lines(changes(a, b, i, j)) == b.skip(j as int),
        cost(changes(a, b, i, j)) + 2 * common(a, b, i, j) == (a.len() - i) + (b.len() - j),
    decreases a.len() - i, b.len() - j,
{
    let way = changes(a, b, i, j);
    if i < a.len() {
        assert(seq![a[i as int]] + a.skip(i as int + 1) =~= a.skip(i as int));
    }
    if j < b.len() {
        assert(seq![b[j as int]] + b.skip(j as int + 1) =~= b.skip(j as int));
    }
    if i < a.len() && j < b.len() && a[i as int] == b[j as int] {
        ways_lead(a, b, i + 1, j + 1);
        assert(way.skip(1) =~= changes(a, b, i + 1, j + 1));
    } else if i < a.len() && (j >= b.len() || common(a, b, i + 1, j) >= common(a, b, i, j + 1)) {
        ways_lead(a, b, i + 1, j);
        assert(way.skip(1) =~= changes(a, b, i + 1, j));
    } else if j < b.len() {
        ways_lead(a, b, i, j + 1);
        assert(way.skip(1) =~= changes(a, b, i, j + 1));
    } else {
        assert(a.skip(i as int) =~= Seq::<Seq<char>>::empty());
        assert(b.skip(j as int) =~= Seq::<Seq<char>>::empty());
    }
}

/// The changes that a diff shows lead from the old lines to the new ones: removing and
/// adding what it says, and keeping the rest, turns the one text into the other.
pub proof fn diff_leads_from_old_to_new(old: Seq<char>, new: Seq<char>)
    ensures
        old_lines(changes(text::lines(old), text::lines(new), 0, 0)) == text::lines(old),
        new_lines(changes(text::lines(old), text::lines(new), 0, 0)) == text::lines(new),
{
    let a = text::lines(old);
    let b = text::lines(new);
    ways_lead(a, b, 0, 0);
    assert(a.skip(0) =~= a);
    assert(b.skip(0) =~= b);
}

proof fn common_is_steady(a: Seq<Seq<char>>, b: Seq<Seq<char>>, i: nat, j: nat)
    requires
        i <= a.len(),
        j <= b.len(),
    ensures
        i < a.len() ==> common(a, b, i + 1, j) <= common(a, b, i, j) <= common(a, b, i + 1, j) + 1,
        j < b.len() ==> common(a, b, i, j + 1) <= common(a, b, i, j) <= common(a, b, i, j + 1) + 1,
    decreases a.len() - i, b.len() - j,
{
    if i < a.len() && j < b.len() {
        common_is_steady(a, b, i + 1, j);
        common_is_steady(a, b, i, j + 1);
        common_is_steady(a, b, i + 1, j + 1);
    }
}

proof fn no_way_keeps_more(a: Seq<Seq<char>>, b: Seq<Seq<char>>, i: nat, j: nat, way: Seq<Change>)
    requires
        i <= a.len(),
        j <= b.len(),
        old_lines(way) == a.skip(i as int),
        new_lines(way) == b.skip(j as int),
    ensures
        cost(way) + 2 * common(a, b, i, j) >= (a.len() - i) + (b.len() - j),
    decreases way.len(),
{
    common_is_steady(a, b, i, j);
    if way.len() == 0 {
        assert(a.skip(i as int).len() == 0);
        assert(b.skip(j as int).len() == 0);
    } else {
        let rest = way.skip(1);
        let x = a.skip(i as int);
        let y = b.skip(j as int);
        match way[0] {
            Change::Same(l) => {
                assert(x =~= seq![l] + old_lines(rest));
                assert(y =~= seq![l] + new_lines(rest));
                assert(x.len() > 0 && y.len() > 0);
                assert(x[0] == l && y[0] == l);
                assert(a[i as int] == l && b[j as int] == l);
                assert(a.skip(i as int + 1) =~= x.skip(1));
                assert(b.skip(j as int + 1) =~= y.skip(1));
                assert(x.skip(1) =~= old_lines(rest));
                assert(y.skip(1) =~= new_lines(rest));
                no_way_keeps_more(a, b, i + 1, j + 1, rest);
            },
            Change::Removed(l) => {
                assert(x =~= seq![l] + old_lines(rest));
                assert(x.len() > 0);
                assert(a.skip(i as int + 1) =~= x.skip(1));
                assert(x.skip(1) =~= old_lines(rest));
                no_way_keeps_more(a, b, i + 1, j, rest);
            },
            Change::Added(l) => {
                assert(y =~= seq![l] + new_lines(rest));
                assert(y.len() > 0);
                assert(b.skip(j as int + 1) =~= y.skip(1));
                assert(y.skip(1) =~= new_lines(rest));
                no_way_keeps_more(a, b, i, j + 1, rest);
            },
        }
    }
}

/// No way from the old lines to the new ones removes and adds fewer lines than the diff
/// shows.
pub proof fn diff_is_smallest(old: Seq<char>, new: Seq<char>, way: Seq<Change>)
    requires
        old_lines(way) == text::lines(old),
        new_lines(way) == text::lines(new),
    ensures
        cost(changes(text::lines(old), text::lines(new), 0, 0)) <= cost(way),
{
    let a = text::lines(old);
    let b = text::lines(new);
    ways_lead(a, b, 0, 0);
    assert(a.skip(0) =~= a);
    assert(b.skip(0) =~= b);
    no_way_keeps_more(a, b, 0, 0, way);
}

proof fn costless_shows_nothing(list: Seq<Change>)
    ensures
        render(list).len() == 0 <==> cost(list) == 0,
        cost(list) == 0 ==> old_lines(list) == new_lines(list),
    decreases list.len(),
{
    reveal_strlit("- ");
    reveal_strlit("+ ");
    if list.len() > 0 {
        costless_shows_nothing(list.skip(1));
    }
}

proof fn equal_lines_have_all_in_common(a: Seq<Seq<char>>, i: nat)
    requires
        i <= a.len(),
    ensures
        common(a, a, i, i) == a.len() - i,
    decreases a.len() - i,
{
    if i < a.len() {
        equal_lines_have_all_in_common(a, i + 1);
    }
}

/// The diff is empty exactly where the two texts have the same lines.
pub proof fn no_change_shows_nothing(old: Seq<char>, new: Seq<char>)
    ensures
        diff_of(old, new).len() == 0 <==> text::lines(old) == text::lines(new),
{
    let a = text::lines(old);
    let b = text::lines(new);
    let way = changes(a, b, 0, 0);
    costless_shows_nothing(way);
    ways_lead(a, b, 0, 0);
    assert(a.skip(0) =~= a);
    assert(b.skip(0) =~= b);
    if a == b {
        equal_lines_have_all_in_common(a, 0);
    }
}

proof fn render_of_both(a: Seq<Change>, b: Seq<Change>)
    ensures
        render(a + b) == render(a) + render(b),
    decreases a.len(),
{
    if a.len() == 0 {
        assert(a + b =~= b);
        assert(render(a) + render(b) =~= render(b));
    } else {
        render_of_both(a.skip(1), b);
        assert((a + b).skip(1) =~= a.skip(1) + b);
        assert((a + b)[0] == a[0]);
        assert(shown(a[0]) + (render(a.skip(1)) + render(b)) =~= shown(a[0]) + render(a.skip(1))
            + render(b));
    }
}

/// Every line that goes is shown with a minus and every one that comes with a plus, each on
/// a line of its own and in its place; a line that stays is not shown.
pub proof fn a_change_is_shown_in_its_place(a: Seq<Change>, l: Seq<char>, b: Seq<Change>)
    ensures
        render(a + seq![Change::Removed(l)] + b) == render(a) + (seq!['-', ' '] + l + seq!['\n'])
            + render(b),
        render(a + seq![Change::Added(l)] + b) == render(a) + (seq!['+', ' '] + l + seq!['\n'])
            + render(b),
        render(a + seq![Change::Same(l)] + b) == render(a) + render(b),
{
    reveal_strlit("- ");
    reveal_strlit("+ ");
    reveal_strlit("\n");
    assert("- "@ =~= seq!['-', ' ']);
    assert("+ "@ =~= seq!['+', ' ']);
    assert("\n"@ =~= seq!['\n']);
    let none = Seq::<Change>::empty();
    assert(render(none) =~= Seq::<char>::empty());
    render_first(Change::Removed(l), none);
    render_first(Change::Added(l), none);
    render_first(Change::Same(l), none);
    assert(seq![Change::Removed(l)] + none =~= seq![Change::Removed(l)]);
    assert(seq![Change::Added(l)] + none =~= seq![Change::Added(l)]);
    assert(seq![Change::Same(l)] + none =~= seq![Change::Same(l)]);
    render_of_both(a, seq![Change::Removed(l)]);
    render_of_both(a + seq![Change::Removed(l)], b);
    render_of_both(a, seq![Change::Added(l)]);
    render_of_both(a + seq![Change::Added(l)], b);
    render_of_both(a, seq![Change::Same(l)]);
    render_of_both(a + seq![Change::Same(l)], b);
    assert(render(seq![Change::Removed(l)]) =~= seq!['-', ' '] + l + seq!['\n']);
    assert(render(seq![Change::Added(l)]) =~= seq!['+', ' '] + l + seq!['\n']);
    assert(render(seq![Change::Same(l)]) =~= Seq::<char>::empty());
    assert(render(a) + Seq::<char>::empty() =~= render(a));
}

/// Where one line takes the place of another, the old one is shown before the new one.
pub proof fn the_old_line_is_shown_first(x: Seq<char>, y: Seq<char>)
    requires
        x != y,
    ensures
        changes(seq![x], seq![y], 0, 0) == seq![Change::Removed(x), Change::Added(y)],
{
    reveal_with_fuel(changes, 4);
    reveal_with_fuel(common, 4);
    assert(changes(seq![x], seq![y], 0, 0) =~= seq![Change::Removed(x), Change::Added(y)]);
}

} // verus!
