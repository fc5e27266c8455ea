//! Retention of the timestamped backups that applying a config leaves behind.

use crate::names;
use crate::strings;
use crate::text;
use crate::txn;
use vstd::prelude::*;

verus! {

/// The stamp of `file` as a backup of `name`, where it is one. The scheme
/// `.{name}.keydviz-bak.{stamp}.{pid}` is matched strictly: stamp and pid are runs of
/// digits and the only two dot-parts after the marker.
pub open spec fn backup_stamp(file: Seq<char>, name: Seq<char>) -> Option<nat> {
    match text::strip_prefix(file, txn::backup_prefix(name)) {
        None => None,
        Some(rest) => {
            let parts = text::split(rest, '.');
            if parts.len() == 2 && parts[0].len() > 0 && text::all_digits(parts[0], 10)
                && parts[1].len() > 0 && text::all_digits(parts[1], 10) && text::numeral_value(
                parts[0],
                10,
            ) <= u64::MAX {
                Some(text::numeral_value(parts[0], 10))
            } else {
                None
            }
        },
    }
}

/// A backup's file name with its stamp.
pub struct Ranked {
    pub file: Seq<char>,
    pub stamp: nat,
}

/// The list, newest first, with one more backup after those that are not older.
pub open spec fn rank_in(list: Seq<Ranked>, one: Ranked) -> Seq<Ranked>
    decreases list.len(),
{
    if list.len() == 0 || list.last().stamp >= one.stamp {
        list.push(one)
    } else {
        rank_in(list.drop_last(), one).push(list.last())
    }
}

/// The backups of `name` among the entries, newest first; those of one stamp stay in the
/// order of the entries.
pub open spec fn ranked(entries: Seq<Seq<char>>, name: Seq<char>) -> Seq<Ranked>
    decreases entries.len(),
{
    if entries.len() == 0 {
        Seq::empty()
    } else {
        let before = ranked(entries.drop_last(), name);
        match backup_stamp(entries.last(), name) {
            Some(stamp) => rank_in(before, Ranked { file: entries.last(), stamp }),
            None => before,
        }
    }
}

/// The backups beyond the `keep` newest.
pub open spec fn beyond(list: Seq<Ranked>, keep: nat) -> Seq<Seq<char>> {
    Seq::new(
        if list.len() > keep {
            (list.len() - keep) as nat
        } else {
            0
        },
        |i: int| list[i + keep].file,
    )
}

/// Newest first.
pub open spec fn newest_first(list: Seq<Ranked>) -> bool {
    forall|i: int, j: int|
        0 <= i <= j < list.len() ==> (#[trigger] list[i]).stamp >= (#[trigger] list[j]).stamp
}

/// A backup with its stamp.
struct Backup {
    file: String,
    stamp: u64,
}

impl View for Backup {
    type V = Ranked;

    closed spec fn view(&self) -> Ranked {
        Ranked { file: self.file@, stamp: self.stamp as nat }
    }
}

/// Whether the string is a run of digits.
fn is_digits(s: &str) -> (r: bool)
    ensures
        r == (s@.len() > 0 && text::all_digits(s@, 10)),
{
    let v = strings::chars(s);
    let mut i: usize = 0;
    while i < v.len()
        invariant
            i <= v@.len(),
            v@ == s@,
            forall|j: int| 0 <= j < i ==> text::digit_value(#[trigger] v@[j], 10) is Some,
        decreases v.len() - i,
    {
        if strings::digit_value(v[i], 10).is_none() {
            assert(text::digit_value(s@[i as int], 10) is None);
            return false;
        }
        i = i + 1;
    }
    v.len() > 0
}

/// The stamp of `file` as a backup of `name`.
fn stamp_of(file: &str, prefix: &str, Ghost(name): Ghost<Seq<char>>) -> (r: Option<u64>)
    requires
        prefix@ == txn::backup_prefix(name),
    ensures
        match r {
            Some(v) => backup_stamp(file@, name) == Some(v as nat),
            None => backup_stamp(file@, name) is None,
        },
{
    match strings::strip_prefix(file, prefix) {
        None => None,
        Some(rest) => {
            let parts = strings::split(rest.as_str(), '.');
            let ghost all = text::split(rest@, '.');
            assert(parts@.len() == all.len());
            if parts.len() != 2 {
                return None;
            }
            assert(all[0] == parts@[0]@ && all[1] == parts@[1]@);
            if !is_digits(parts[0].as_str()) || !is_digits(parts[1].as_str()) {
                return None;
            }
            proof {
                assert(text::digit_value('+', 10) is None);
                assert(text::unsigned_part(parts@[0]@) == parts@[0]@);
            }
            strings::parse_number(parts[0].as_str(), 10, u64::MAX)
        },
    }
}

/// Where the list is newest first, ranking a backup in is inserting it behind those that
/// are not older.
proof fn rank_in_is_insert(list: Seq<Ranked>, one: Ranked, pos: int)
    requires
        0 <= pos <= list.len(),
        pos > 0 ==> list[pos - 1].stamp >= one.stamp,
        forall|i: int| pos <= i < list.len() ==> (#[trigger] list[i]).stamp < one.stamp,
    ensures
        rank_in(list, one) == list.insert(pos, one),
    decreases list.len(),
{
    if pos == list.len() {
        assert(list.insert(pos, one) =~= list.push(one));
    } else {
        let t = list.drop_last();
        assert forall|i: int| pos <= i < t.len() implies (#[trigger] t[i]).stamp < one.stamp by {
            assert(t[i] == list[i]);
        }
        rank_in_is_insert(t, one, pos);
        assert(t.insert(pos, one).push(list.last()) =~= list.insert(pos, one));
    }
}

/// The backups to remove so that only the `keep` newest of `name` (the full config file
/// name, such as `hhkb.conf`) remain, newest first. A hand-named or unrelated file is
/// never selected, and neither is the live config.
pub fn prune_backups(entries: &Vec<String>, name: &str, keep: usize) -> (r: Vec<String>)
    ensures
        text::texts(r@) == beyond(ranked(text::texts(entries@), name@), keep as nat),
{
    let mut prefix = strings::copy(".");
    prefix.append(name);
    prefix.append(".keydviz-bak.");
    let ghost all = text::texts(entries@);
    let mut list: Vec<Backup> = Vec::new();
    let mut i: usize = 0;
    assert(text::views(list@) == Seq::<Ranked>::empty());
    while i < entries.len()
        invariant
            i <= entries@.len(),
            all == text::texts(entries@),
            prefix@ == txn::backup_prefix(name@),
            text::views(list@) == ranked(all.subrange(0, i as int), name@),
        decreases entries.len() - i,
    {
        let ghost next = all.subrange(0, i + 1);
        let ghost before = text::views(list@);
        assert(next.drop_last() == all.subrange(0, i as int));
        assert(next.last() == entries@[i as int]@);
        match stamp_of(entries[i].as_str(), prefix.as_str(), Ghost(name@)) {
            None => {},
            Some(stamp) => {
                let file = strings::copy(entries[i].as_str());
                let mut pos: usize = list.len();
                while pos > 0 && list[pos - 1].stamp < stamp
                    invariant
                        pos <= list@.len(),
                        before == text::views(list@),
                        forall|k: int|
                            pos <= k < list@.len() ==> (#[trigger] before[k]).stamp < stamp,
                    decreases pos,
                {
                    assert(before[pos - 1] == list@[pos - 1]@);
                    pos = pos - 1;
                }
                assert(pos > 0 ==> before[pos - 1] == list@[pos - 1]@);
                let one = Backup { file, stamp };
                proof {
                    rank_in_is_insert(before, one@, pos as int);
                }
                let ghost list0 = list@;
                let ghost onev = one@;
                list.insert(pos, one);
                assert(text::views(list@) =~= before.insert(pos as int, onev));
            },
        }
        i = i + 1;
    }
    assert(all.subrange(0, i as int) == all);
    let ghost total = ranked(all, name@);
    let mut r: Vec<String> = Vec::new();
    let mut k: usize = keep;
    while k < list.len()
        invariant
            keep <= k,
            k <= list@.len() || k == keep,
            total == text::views(list@),
            r@.len() == k - keep,
            forall|j: int| 0 <= j < r@.len() ==> #[trigger] r@[j]@ == total[j + keep].file,
        decreases list.len() - k,
    {
        assert(total[k as int] == list@[k as int]@);
        r.push(strings::copy(list[k].file.as_str()));
        k = k + 1;
    }
    assert(text::texts(r@) =~= beyond(total, keep as nat));
    r
}

/// Ranking one more backup in keeps the order and adds just that one.
proof fn rank_in_keeps_order(list: Seq<Ranked>, one: Ranked)
    requires
        newest_first(list),
    ensures
        newest_first(rank_in(list, one)),
        rank_in(list, one).len() == list.len() + 1,
        forall|x: Ranked| #[trigger] rank_in(list, one).contains(x) <==> list.contains(x) || x == one,
        list.len() > 0 ==> rank_in(list, one).last().stamp == (if list.last().stamp < one.stamp {
            list.last().stamp
        } else {
            one.stamp
        }),
    decreases list.len(),
{
    let out = rank_in(list, one);
    if list.len() == 0 || list.last().stamp >= one.stamp {
        assert forall|x: Ranked| #[trigger] out.contains(x) <==> list.contains(x) || x == one by {
            assert(out[list.len() as int] == one);
            if list.contains(x) {
                let i = choose|i: int| 0 <= i < list.len() && list[i] == x;
                assert(out[i] == x);
            }
            if out.contains(x) {
                let i = choose|i: int| 0 <= i < out.len() && out[i] == x;
                if i < list.len() {
                    assert(list[i] == x);
                }
            }
        }
        assert forall|i: int, j: int| 0 <= i <= j < out.len() implies (#[trigger] out[i]).stamp >= (
        #[trigger] out[j]).stamp by {
            if j < list.len() {
                assert(list[i].stamp >= list[j].stamp);
            } else if i < list.len() {
                assert(list[i].stamp >= list[list.len() - 1].stamp);
            }
        }
    } else {
        let t = list.drop_last();
        assert forall|i: int, j: int| 0 <= i <= j < t.len() implies (#[trigger] t[i]).stamp >= (
        #[trigger] t[j]).stamp by {
            assert(list[i].stamp >= list[j].stamp);
        }
        rank_in_keeps_order(t, one);
        let u = rank_in(t, one);
        assert(out == u.push(list.last()));
        assert forall|x: Ranked| #[trigger] out.contains(x) <==> list.contains(x) || x == one by {
            if out.contains(x) {
                let i = choose|i: int| 0 <= i < out.len() && out[i] == x;
                if i < u.len() {
                    assert(u[i] == x);
                    assert(u.contains(x));
                    if t.contains(x) {
                        let k = choose|k: int| 0 <= k < t.len() && t[k] == x;
                        assert(list[k] == x);
                    }
                } else {
                    assert(list[list.len() - 1] == x);
                }
            }
            if x == one {
                assert(u.contains(x));
                let i = choose|i: int| 0 <= i < u.len() && u[i] == x;
                assert(out[i] == x);
            }
            if list.contains(x) {
                let i = choose|i: int| 0 <= i < list.len() && list[i] == x;
                if i < t.len() {
                    assert(t[i] == x);
                    assert(u.contains(x));
                    let k = choose|k: int| 0 <= k < u.len() && u[k] == x;
                    assert(out[k] == x);
                } else {
                    assert(out[out.len() - 1] == x);
                }
            }
        }
        assert forall|i: int, j: int| 0 <= i <= j < out.len() implies (#[trigger] out[i]).stamp >= (
        #[trigger] out[j]).stamp by {
            if j < u.len() {
                assert(u[i].stamp >= u[j].stamp);
            } else if i < u.len() {
                assert(u.contains(u[i]));
                if t.contains(u[i]) {
                    let k = choose|k: int| 0 <= k < t.len() && t[k] == u[i];
                    assert(list[k].stamp >= list[list.len() - 1].stamp);
                }
            }
        }
    }
}

/// The backups stand newest first, and are exactly the entries that match the scheme.
pub proof fn ranked_is_sorted_and_complete(entries: Seq<Seq<char>>, name: Seq<char>)
    ensures
        newest_first(ranked(entries, name)),
        forall|x: Ranked| #[trigger]
            ranked(entries, name).contains(x) <==> entries.contains(x.file) && backup_stamp(
                x.file,
                name,
            ) == Some(x.stamp),
    decreases entries.len(),
{
    if entries.len() > 0 {
        let t = entries.drop_last();
        let last = entries.last();
        ranked_is_sorted_and_complete(t, name);
        let before = ranked(t, name);
        if backup_stamp(last, name) is Some {
            let one = Ranked { file: last, stamp: backup_stamp(last, name)->0 };
            rank_in_keeps_order(before, one);
        }
        assert forall|x: Ranked| #[trigger]
            ranked(entries, name).contains(x) <==> entries.contains(x.file) && backup_stamp(
                x.file,
                name,
            ) == Some(x.stamp) by {
            assert(entries[entries.len() - 1] == last);
            if entries.contains(x.file) {
                let i = choose|i: int| 0 <= i < entries.len() && entries[i] == x.file;
                if i < t.len() {
                    assert(t[i] == x.file);
                }
            }
            if t.contains(x.file) {
                let i = choose|i: int| 0 <= i < t.len() && t[i] == x.file;
                assert(entries[i] == x.file);
            }
            assert(before.contains(x) <==> t.contains(x.file) && backup_stamp(x.file, name) == Some(
                x.stamp,
            ));
        }
    }
}

/// Pruning removes only backups of that config, and never one that is newer than a
/// backup it leaves.
pub proof fn pruning_keeps_the_newest(entries: Seq<Seq<char>>, name: Seq<char>, keep: nat)
    ensures
        ({
            let all = ranked(entries, name);
            let gone = beyond(all, keep);
            &&& gone.len() == (if all.len() > keep {
                all.len() - keep
            } else {
                0
            })
            &&& forall|i: int|
                0 <= i < gone.len() ==> entries.contains(#[trigger] gone[i]) && backup_stamp(
                    gone[i],
                    name,
                ) is Some
            &&& forall|i: int, k: int|
                0 <= i < gone.len() && 0 <= k < keep && k < all.len() ==> backup_stamp(
                    #[trigger] gone[i],
                    name,
                )->0 <= (#[trigger] all[k]).stamp
        }),
{
    ranked_is_sorted_and_complete(entries, name);
    let all = ranked(entries, name);
    let gone = beyond(all, keep);
    assert forall|i: int| 0 <= i < gone.len() implies entries.contains(#[trigger] gone[i])
        && backup_stamp(gone[i], name) == Some(all[i + keep].stamp) by {
        assert(all.contains(all[i + keep]));
    }
}

/// Pruning is nothing below the limit.
pub proof fn pruning_below_the_limit_is_nothing(
    entries: Seq<Seq<char>>,
    name: Seq<char>,
    keep: nat,
)
    requires
        ranked(entries, name).len() <= keep,
    ensures
        beyond(ranked(entries, name), keep) == Seq::<Seq<char>>::empty(),
{
    assert(beyond(ranked(entries, name), keep) =~= Seq::<Seq<char>>::empty());
}

/// The file name of the config called `base`.
pub open spec fn config_file(base: Seq<char>) -> Seq<char> {
    base + ".conf"@
}

/// What applying writes as a backup, pruning knows as one of that stamp.
pub proof fn backup_is_recognised(name: Seq<char>, stamp: nat, pid: nat)
    requires
        stamp <= u64::MAX,
    ensures
        backup_stamp(txn::backup_name(name, stamp, pid), name) == Some(stamp),
{
    reveal_strlit(".");
    let a = text::decimal(stamp);
    let b = text::decimal(pid);
    let file = txn::backup_name(name, stamp, pid);
    let prefix = txn::backup_prefix(name);
    text::decimal_reads_back(stamp);
    text::decimal_reads_back(pid);
    assert(file.subrange(0, prefix.len() as int) =~= prefix);
    let rest = file.subrange(prefix.len() as int, file.len() as int);
    assert(rest =~= a.push('.') + b);
    text::split_at_separator(a, '.', b);
    assert(!a.contains('.')) by {
        assert forall|i: int| 0 <= i < a.len() implies a[i] != '.' by {}
    }
    assert(!b.contains('.')) by {
        assert forall|i: int| 0 <= i < b.len() implies b[i] != '.' by {}
    }
    text::split_without_separator(a, '.');
    text::split_without_separator(b, '.');
    assert(text::split(rest, '.') =~= seq![a, b]);
}

/// The backups of one config are never taken for those of another, and no config is
/// taken for a backup.
pub proof fn backups_of_others_are_safe(base: Seq<char>, other: Seq<char>, stamp: nat, pid: nat)
    requires
        names::is_valid_name(base),
        names::is_valid_name(other),
    ensures
        base != other ==> backup_stamp(
            txn::backup_name(config_file(other), stamp, pid),
            config_file(base),
        ) is None,
        backup_stamp(config_file(other), config_file(base)) is None,
{
    reveal_strlit(".");
    reveal_strlit(".conf");
    names::valid_name_stays_in_its_directory(base);
    names::valid_name_stays_in_its_directory(other);
    let file = txn::backup_name(config_file(other), stamp, pid);
    let prefix = txn::backup_prefix(config_file(base));
    assert forall|i: int| 0 <= i < base.len() implies base[i] != '.' && prefix[i + 1] == base[i] by {
        assert(base.contains(base[i]));
    }
    assert forall|i: int| 0 <= i < other.len() implies other[i] != '.' && file[i + 1] == other[i] by {
        assert(other.contains(other[i]));
    }
    assert(prefix[1 + base.len() as int] == '.');
    assert(file[1 + other.len() as int] == '.');
    if text::starts_with(file, prefix) {
        assert forall|i: int| 0 <= i < prefix.len() implies prefix[i] == file[i] by {
            assert(file.subrange(0, prefix.len() as int)[i] == prefix[i]);
        }
        if base.len() < other.len() {
            assert(file[1 + base.len() as int] == other[base.len() as int]);
        } else if other.len() < base.len() {
            assert(prefix[1 + other.len() as int] == base[other.len() as int]);
        }
        assert forall|i: int| 0 <= i < base.len() implies base[i] == other[i] by {
            assert(prefix[i + 1] == base[i]);
            assert(file[i + 1] == other[i]);
        }
        assert(base =~= other);
    }
    let live = config_file(other);
    if text::starts_with(live, prefix) {
        assert(live.subrange(0, prefix.len() as int)[0] == prefix[0]);
        assert(live[0] == other[0]);
        assert(other.contains(other[0]));
    }
}

/// A file is a backup of a config where it is named as one: a dot, the config's file name,
/// the marker, and two runs of digits with a dot between them, of which the first is its
/// stamp.
pub proof fn a_stamped_name_is_a_backup(name: Seq<char>, a: Seq<char>, b: Seq<char>)
    requires
        a.len() > 0,
        b.len() > 0,
        text::all_digits(a, 10),
        text::all_digits(b, 10),
        text::numeral_value(a, 10) <= u64::MAX,
    ensures
        backup_stamp("."@ + name + ".keydviz-bak."@ + (a + seq!['.'] + b), name) == Some(
            text::numeral_value(a, 10),
        ),
{
    let front = "."@ + name + ".keydviz-bak."@;
    let tail = a + seq!['.'] + b;
    text::stripping_takes_off_one_end(tail, front);
    assert(tail =~= a.push('.') + b);
    text::split_at_separator(a, '.', b);
    digits_have_no_dot(a);
    digits_have_no_dot(b);
    text::split_without_separator(a, '.');
    text::split_without_separator(b, '.');
    assert(text::split(tail, '.') =~= seq![a, b]);
}

proof fn digits_have_no_dot(a: Seq<char>)
    requires
        text::all_digits(a, 10),
    ensures
        !a.contains('.'),
{
    if a.contains('.') {
        let i = choose|i: int| 0 <= i < a.len() && a[i] == '.';
        assert(text::digit_value(a[i], 10) is Some);
    }
}

/// The file is that of a backup of the config with the two runs of digits.
pub open spec fn is_stamped(file: Seq<char>, name: Seq<char>, a: Seq<char>, b: Seq<char>) -> bool {
    &&& file == "."@ + name + ".keydviz-bak."@ + (a + seq!['.'] + b)
    &&& a.len() > 0 && text::all_digits(a, 10)
    &&& b.len() > 0 && text::all_digits(b, 10)
}

/// No other file is ever taken for a backup: one that is has the name of one, with its stamp
/// in it.
pub proof fn only_stamped_names_are_backups(file: Seq<char>, name: Seq<char>)
    requires
        backup_stamp(file, name) is Some,
    ensures
        exists|a: Seq<char>, b: Seq<char>| #[trigger]
            is_stamped(file, name, a, b) && backup_stamp(file, name)->0 == text::numeral_value(
                a,
                10,
            ),
{
    let front = "."@ + name + ".keydviz-bak."@;
    text::stripping_takes_off_one_end(file, front);
    let rest = text::strip_prefix(file, front)->0;
    let parts = text::split(rest, '.');
    text::a_split_joins_again(rest, '.');
    assert(parts.drop_last() =~= seq![parts[0]]);
    assert(text::join(parts.drop_last(), seq!['.']) == parts[0]);
    assert(rest == parts[0] + seq!['.'] + parts[1]);
    assert(is_stamped(file, name, parts[0], parts[1]));
}

/// Pruning leaves as many backups as it is told to, or all where there are no more: those
/// that stay and those that go are all there are.
pub proof fn pruning_leaves_as_many_as_told(entries: Seq<Seq<char>>, name: Seq<char>, keep: nat)
    ensures
        ({
            let all = ranked(entries, name);
            let gone = beyond(all, keep);
            &&& all.len() > keep ==> all.len() - gone.len() == keep
            &&& all.len() <= keep ==> gone.len() == 0
            &&& forall|k: int|
                keep <= k < all.len() ==> gone.contains((#[trigger] all[k]).file)
        }),
{
    let all = ranked(entries, name);
    let gone = beyond(all, keep);
    assert forall|k: int| keep <= k < all.len() implies gone.contains(
        (#[trigger] all[k]).file,
    ) by {
        assert(gone[k - keep] == all[k].file);
    }
}

} // verus!
