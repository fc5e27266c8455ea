//! Which config sheets to show, and how connected keyboards map to them.
//!
//! Each connected keyboard goes to its best-matching config (an explicit id beats the
//! wildcard), each sheet is labelled with the device on it, and a map from device ids to
//! sheets follows the keyboard that was last used. [`rescan`] redoes just the matching
//! over the sheets already shown.

use crate::create;
use crate::devices;
use crate::devices::Connected;
use crate::devices::ConnectedView;
use crate::devices::DeviceView;
use crate::devices::MatchKind;
use crate::order;
use crate::paths;
use crate::strings;
use crate::text;
use vstd::prelude::*;

verus! {

// ---------------------------------------------------------------------------
// Files and arguments
// ---------------------------------------------------------------------------

/// The config files among the names, sorted.
pub open spec fn conf_files(names: Seq<Seq<char>>) -> Seq<Seq<char>> {
    order::sorted(confs(names))
}

/// The names that end in the extension.
pub open spec fn confs(names: Seq<Seq<char>>) -> Seq<Seq<char>>
    decreases names.len(),
{
    if names.len() == 0 {
        Seq::empty()
    } else {
        let before = confs(names.drop_last());
        if paths::has_conf_extension(names.last()) {
            before.push(names.last())
        } else {
            before
        }
    }
}

/// The config files among the names in a directory, sorted.
pub fn conf_files_in(names: &Vec<String>) -> (r: Vec<String>)
    ensures
        text::texts(r@) == conf_files(text::texts(names@)),
{
    let ghost all = text::texts(names@);
    let mut list: Vec<String> = Vec::new();
    let mut i: usize = 0;
    assert(text::texts(list@) =~= Seq::<Seq<char>>::empty());
    while i < names.len()
        invariant
            i <= names@.len(),
            all == text::texts(names@),
            text::texts(list@) == confs(all.subrange(0, i as int)),
        decreases names.len() - i,
    {
        let ghost next = all.subrange(0, i + 1);
        assert(next.drop_last() =~= all.subrange(0, i as int));
        assert(next.last() == names@[i as int]@);
        let name = names[i].as_str();
        let long = strings::chars(name).len() > 5;
        if long && strings::ends_with(name, ".conf") {
            let ghost before = text::texts(list@);
            list.push(strings::copy(name));
            assert(text::texts(list@) =~= before.push(name@));
        }
        i = i + 1;
    }
    assert(all.subrange(0, i as int) =~= all);
    order::sort(&list)
}

/// The value following the flag `name` on the command line.
pub open spec fn value_after(args: Seq<Seq<char>>, name: Seq<char>) -> Option<Seq<char>>
    decreases args.len(),
{
    if args.len() == 0 {
        None
    } else {
        let rest = args.subrange(1, args.len() as int);
        if args[0] == name {
            if rest.len() > 0 {
                Some(rest[0])
            } else {
                None
            }
        } else {
            value_after(rest, name)
        }
    }
}

/// The value following the first such flag on the command line, if there is one.
pub fn flag_value(args: &Vec<String>, name: &str) -> (r: Option<String>)
    ensures
        text::opt(r) == value_after(text::texts(args@), name@),
{
    let ghost all = text::texts(args@);
    let mut i: usize = 0;
    assert(all.subrange(0, all.len() as int) =~= all);
    while i < args.len()
        invariant
            i <= args@.len(),
            all == text::texts(args@),
            value_after(all, name@) == value_after(
                all.subrange(i as int, all.len() as int),
                name@,
            ),
        decreases args.len() - i,
    {
        let ghost here = all.subrange(i as int, all.len() as int);
        assert(here.subrange(1, here.len() as int) =~= all.subrange(i + 1, all.len() as int));
        assert(here[0] == args@[i as int]@);
        if strings::same(args[i].as_str(), name) {
            if i + 1 < args.len() {
                assert(all.subrange(i + 1, all.len() as int)[0] == args@[i + 1]@);
                return Some(strings::copy(args[i + 1].as_str()));
            }
            return None;
        }
        i = i + 1;
    }
    None
}

/// The config paths among the arguments: neither flags nor the value of a flag that
/// takes one.
pub open spec fn positional(args: Seq<Seq<char>>) -> Seq<Seq<char>>
    decreases args.len(),
{
    if args.len() == 0 {
        Seq::empty()
    } else {
        let rest = args.subrange(1, args.len() as int);
        if args[0] == "--layout"@ || args[0] == "--helper-socket"@ {
            if rest.len() == 0 {
                Seq::empty()
            } else {
                positional(rest.subrange(1, rest.len() as int))
            }
        } else if text::starts_with(args[0], "-"@) {
            positional(rest)
        } else {
            seq![args[0]] + positional(rest)
        }
    }
}

/// The config paths among the arguments, which follow the program's name.
pub fn config_args(args: &Vec<String>) -> (r: Vec<String>)
    ensures
        text::texts(r@) == positional(text::texts(args@)),
{
    let ghost all = text::texts(args@);
    let mut r: Vec<String> = Vec::new();
    let mut i: usize = 0;
    assert(all.subrange(0, all.len() as int) =~= all);
    assert(text::texts(r@) + positional(all) =~= positional(all));
    while i < args.len()
        invariant
            i <= args@.len(),
            all == text::texts(args@),
            text::texts(r@) + positional(all.subrange(i as int, all.len() as int)) == positional(
                all,
            ),
        decreases args.len() - i,
    {
        let ghost here = all.subrange(i as int, all.len() as int);
        let ghost rest = all.subrange(i + 1, all.len() as int);
        assert(here.subrange(1, here.len() as int) =~= rest);
        assert(here[0] == args@[i as int]@);
        let a = args[i].as_str();
        if strings::same(a, "--layout") || strings::same(a, "--helper-socket") {
            if i + 1 >= args.len() {
                assert(text::texts(r@) + Seq::<Seq<char>>::empty() =~= text::texts(r@));
                return r;
            }
            assert(rest.subrange(1, rest.len() as int) =~= all.subrange(i + 2, all.len() as int));
            i = i + 2;
        } else if strings::starts_with(a, "-") {
            i = i + 1;
        } else {
            let ghost before = text::texts(r@);
            r.push(strings::copy(a));
            assert(text::texts(r@) + positional(rest) =~= before + (seq![a@] + positional(rest)));
            i = i + 1;
        }
    }
    assert(all.subrange(i as int, all.len() as int) =~= Seq::<Seq<char>>::empty());
    assert(text::texts(r@) + Seq::<Seq<char>>::empty() =~= text::texts(r@));
    r
}

// ---------------------------------------------------------------------------
// Labels
// ---------------------------------------------------------------------------

/// A physical keyboard: one id, and the name chosen for it.
pub struct GroupView {
    pub devid: Seq<char>,
    pub name: Seq<char>,
}

/// The first group of the id.
pub open spec fn group_at(list: Seq<GroupView>, devid: Seq<char>) -> Option<int>
    decreases list.len(),
{
    if list.len() == 0 {
        None
    } else {
        match group_at(list.drop_last(), devid) {
            Some(i) => Some(i),
            None => if list.last().devid == devid {
                Some(list.len() - 1)
            } else {
                None
            },
        }
    }
}

/// A device that may headline a board: a real keyboard, and not keyd's own output.
pub open spec fn may_headline(d: DeviceView) -> bool {
    d.full_keyboard && d.vendor != create::virtual_vendor()
}

/// The groups with one more node: a node of a known id only lends its name where there
/// is none yet.
pub open spec fn with_group(list: Seq<GroupView>, d: DeviceView) -> Seq<GroupView> {
    if !may_headline(d) {
        list
    } else {
        let one = GroupView { devid: d.devid(), name: d.name };
        match group_at(list, d.devid()) {
            None => list.push(one),
            Some(i) => if list[i].name.len() == 0 {
                list.update(i, one)
            } else {
                list
            },
        }
    }
}

/// The groups of the first `n` devices listed.
pub open spec fn groups_upto(all: Seq<ConnectedView>, idxs: Seq<int>, n: nat) -> Seq<GroupView>
    decreases n,
{
    if n == 0 {
        Seq::empty()
    } else {
        with_group(groups_upto(all, idxs, (n - 1) as nat), all[idxs[n - 1]].dev)
    }
}

/// The names of the first `n` groups that have one.
pub open spec fn names_upto(list: Seq<GroupView>, n: nat) -> Seq<Seq<char>>
    decreases n,
{
    if n == 0 {
        Seq::empty()
    } else {
        let before = names_upto(list, (n - 1) as nat);
        if list[n - 1].name.len() > 0 {
            before.push(list[n - 1].name)
        } else {
            before
        }
    }
}

/// One name, or the first and how many more.
pub open spec fn label_text(names: Seq<Seq<char>>) -> Seq<char> {
    if names.len() == 0 {
        Seq::empty()
    } else if names.len() == 1 {
        names[0]
    } else {
        names[0] + " (+"@ + text::decimal((names.len() - 1) as nat) + ")"@
    }
}

/// The label for the devices listed: each physical keyboard appears once.
pub open spec fn device_label(all: Seq<ConnectedView>, idxs: Seq<int>) -> Seq<char> {
    let groups = groups_upto(all, idxs, idxs.len());
    label_text(names_upto(groups, groups.len()))
}

/// Those among the first `n` devices listed that config `ci` matches explicitly.
pub open spec fn explicit_upto(
    all: Seq<ConnectedView>,
    idxs: Seq<int>,
    ci: int,
    n: nat,
) -> Seq<int>
    decreases n,
{
    if n == 0 {
        Seq::empty()
    } else {
        let before = explicit_upto(all, idxs, ci, (n - 1) as nat);
        if all[idxs[n - 1]].kinds[ci] == MatchKind::Explicit {
            before.push(idxs[n - 1])
        } else {
            before
        }
    }
}

/// The header of config `ci`: the real keyboards it governs explicitly, or a stable name
/// where it only catches what nothing else claims.
pub open spec fn config_label(
    all: Seq<ConnectedView>,
    idxs: Seq<int>,
    ci: int,
    wildcard: bool,
) -> Seq<char> {
    let explicit = explicit_upto(all, idxs, ci, idxs.len());
    if explicit.len() > 0 {
        device_label(all, explicit)
    } else if wildcard {
        "all keyboards"@
    } else {
        Seq::empty()
    }
}

struct Group {
    devid: String,
    name: String,
}

impl View for Group {
    type V = GroupView;

    closed spec fn view(&self) -> GroupView {
        GroupView { devid: self.devid@, name: self.name@ }
    }
}

proof fn group_at_is_stable(list: Seq<GroupView>, devid: Seq<char>, n: int)
    requires
        0 <= n <= list.len(),
        group_at(list.subrange(0, n), devid) is Some,
    ensures
        group_at(list, devid) == group_at(list.subrange(0, n), devid),
    decreases list.len(),
{
    if n < list.len() {
        assert(list.drop_last().subrange(0, n) =~= list.subrange(0, n));
        group_at_is_stable(list.drop_last(), devid, n);
    } else {
        assert(list.subrange(0, n) =~= list);
    }
}

proof fn group_at_is_an_index(list: Seq<GroupView>, devid: Seq<char>)
    ensures
        group_at(list, devid) is Some ==> 0 <= group_at(list, devid)->0 < list.len(),
    decreases list.len(),
{
    if list.len() > 0 {
        group_at_is_an_index(list.drop_last(), devid);
    }
}

/// The index of the first group of the id.
fn find_group(list: &Vec<Group>, devid: &str) -> (r: Option<usize>)
    ensures
        match r {
            Some(i) => i < list@.len() && group_at(text::views(list@), devid@) == Some(i as int),
            None => group_at(text::views(list@), devid@) is None,
        },
{
    let ghost v = text::views(list@);
    let mut i: usize = 0;
    while i < list.len()
        invariant
            i <= list@.len(),
            v == text::views(list@),
            group_at(v.subrange(0, i as int), devid@) is None,
        decreases list.len() - i,
    {
        let ghost next = v.subrange(0, i + 1);
        assert(next.drop_last() =~= v.subrange(0, i as int));
        assert(next.last() == list@[i as int]@);
        if strings::same(list[i].devid.as_str(), devid) {
            proof {
                group_at_is_stable(v, devid@, i + 1);
            }
            return Some(i);
        }
        i = i + 1;
    }
    assert(v.subrange(0, i as int) =~= v);
    None
}

/// The integers of a list of indices.
pub open spec fn ints(v: Seq<usize>) -> Seq<int> {
    Seq::new(v.len(), |i: int| v[i] as int)
}

/// Every index stands for one of `n` things.
pub open spec fn within(v: Seq<usize>, n: nat) -> bool {
    forall|i: int| 0 <= i < v.len() ==> #[trigger] v[i] < n
}

/// The label for the devices listed.
fn label_devices(all: &Vec<Connected>, idxs: &Vec<usize>) -> (r: String)
    requires
        within(idxs@, all@.len()),
    ensures
        r@ == device_label(text::views(all@), ints(idxs@)),
{
    let ghost v = text::views(all@);
    let ghost ix = ints(idxs@);
    let mut groups: Vec<Group> = Vec::new();
    let mut i: usize = 0;
    assert(text::views(groups@) =~= Seq::<GroupView>::empty());
    while i < idxs.len()
        invariant
            i <= idxs@.len(),
            v == text::views(all@),
            ix == ints(idxs@),
            within(idxs@, all@.len()),
            text::views(groups@) == groups_upto(v, ix, i as nat),
        decreases idxs.len() - i,
    {
        assert(idxs@[i as int] < all@.len());
        let d = &all[idxs[i]].dev;
        assert(v[ix[i as int]].dev == d@);
        if d.full_keyboard && !strings::same(d.vendor.as_str(), "0fac") {
            let ghost before = text::views(groups@);
            let devid = d.devid();
            match find_group(&groups, devid.as_str()) {
                None => {
                    let one = Group { devid, name: strings::copy(d.name.as_str()) };
                    let ghost onev = one@;
                    groups.push(one);
                    assert(text::views(groups@) =~= before.push(onev));
                },
                Some(k) => {
                    assert(before[k as int] == groups@[k as int]@);
                    if groups[k].name.as_str().is_empty() {
                        let one = Group { devid, name: strings::copy(d.name.as_str()) };
                        let ghost onev = one@;
                        groups.set(k, one);
                        assert(text::views(groups@) =~= before.update(k as int, onev));
                    }
                },
            }
        }
        i = i + 1;
    }
    let ghost gv = text::views(groups@);
    let mut names: Vec<String> = Vec::new();
    let mut k: usize = 0;
    assert(text::texts(names@) =~= Seq::<Seq<char>>::empty());
    while k < groups.len()
        invariant
            k <= groups@.len(),
            gv == text::views(groups@),
            text::texts(names@) == names_upto(gv, k as nat),
        decreases groups.len() - k,
    {
        assert(gv[k as int] == groups@[k as int]@);
        if !groups[k].name.as_str().is_empty() {
            let ghost before = text::texts(names@);
            names.push(strings::copy(groups[k].name.as_str()));
            assert(text::texts(names@) =~= before.push(gv[k as int].name));
        }
        k = k + 1;
    }
    let ghost nv = text::texts(names@);
    assert(nv.len() == names@.len());
    if names.len() == 0 {
        String::new()
    } else if names.len() == 1 {
        assert(nv[0] == names@[0]@);
        strings::copy(names[0].as_str())
    } else {
        assert(nv[0] == names@[0]@);
        let mut r = strings::cat(names[0].as_str(), " (+");
        r.append(strings::decimal((names.len() - 1) as u64).as_str());
        r.append(")");
        r
    }
}

/// The header of config `ci`.
fn label_config(all: &Vec<Connected>, idxs: &Vec<usize>, ci: usize, wildcard: bool) -> (r: String)
    requires
        within(idxs@, all@.len()),
        forall|i: int| 0 <= i < all@.len() ==> ci < (#[trigger] all@[i]).kinds@.len(),
    ensures
        r@ == config_label(text::views(all@), ints(idxs@), ci as int, wildcard),
{
    let ghost v = text::views(all@);
    let ghost ix = ints(idxs@);
    let mut explicit: Vec<usize> = Vec::new();
    let mut i: usize = 0;
    assert(ints(explicit@) =~= Seq::<int>::empty());
    while i < idxs.len()
        invariant
            i <= idxs@.len(),
            v == text::views(all@),
            ix == ints(idxs@),
            within(idxs@, all@.len()),
            within(explicit@, all@.len()),
            forall|k: int| 0 <= k < all@.len() ==> ci < (#[trigger] all@[k]).kinds@.len(),
            ints(explicit@) == explicit_upto(v, ix, ci as int, i as nat),
        decreases idxs.len() - i,
    {
        assert(idxs@[i as int] < all@.len());
        let di: usize = idxs[i];
        assert(v[ix[i as int]] == all@[di as int]@);
        let is_explicit = match all[di].kinds[ci] {
            MatchKind::Explicit => true,
            _ => false,
        };
        if is_explicit {
            let ghost before = ints(explicit@);
            explicit.push(di);
            assert(ints(explicit@) =~= before.push(di as int));
        }
        i = i + 1;
    }
    assert(ints(explicit@).len() == explicit@.len());
    if explicit.len() > 0 {
        label_devices(all, &explicit)
    } else if wildcard {
        strings::copy("all keyboards")
    } else {
        String::new()
    }
}

// ---------------------------------------------------------------------------
// Matching
// ---------------------------------------------------------------------------

/// The devices among the first `n` that config `ci` governs.
pub open spec fn governed_upto(all: Seq<ConnectedView>, ci: int, n: nat) -> Seq<int>
    decreases n,
{
    if n == 0 {
        Seq::empty()
    } else {
        let before = governed_upto(all, ci, (n - 1) as nat);
        if devices::best_config(all[n - 1].kinds) == Some(ci) {
            before.push(n - 1)
        } else {
            before
        }
    }
}

/// The devices that config `ci` governs.
pub open spec fn governed(all: Seq<ConnectedView>, ci: int) -> Seq<int> {
    governed_upto(all, ci, all.len())
}

/// The ids of the first `n` devices listed, each once.
pub open spec fn ids_upto(all: Seq<ConnectedView>, idxs: Seq<int>, n: nat) -> Seq<Seq<char>>
    decreases n,
{
    if n == 0 {
        Seq::empty()
    } else {
        let before = ids_upto(all, idxs, (n - 1) as nat);
        let id = all[idxs[n - 1]].dev.devid();
        if before.contains(id) {
            before
        } else {
            before.push(id)
        }
    }
}

/// The ids that config `ci` governs, each once.
pub open spec fn matched_ids(all: Seq<ConnectedView>, ci: int) -> Seq<Seq<char>> {
    ids_upto(all, governed(all, ci), governed(all, ci).len())
}

/// A device id and the sheet that shows it.
pub struct EntryView {
    pub devid: Seq<char>,
    pub sheet: int,
}

/// The map has the id.
pub open spec fn mapped(map: Seq<EntryView>, devid: Seq<char>) -> bool {
    exists|i: int| 0 <= i < map.len() && (#[trigger] map[i]).devid == devid
}

/// The map with the first `n` of the ids pointing at `sheet`, except those it has.
pub open spec fn map_ids(map: Seq<EntryView>, ids: Seq<Seq<char>>, sheet: int, n: nat) -> Seq<
    EntryView,
>
    decreases n,
{
    if n == 0 {
        map
    } else {
        let before = map_ids(map, ids, sheet, (n - 1) as nat);
        if mapped(before, ids[n - 1]) {
            before
        } else {
            before.push(EntryView { devid: ids[n - 1], sheet })
        }
    }
}

/// A device id and the sheet that shows it.
#[derive(Debug, PartialEq, Eq)]
pub struct DeviceEntry {
    pub devid: String,
    pub sheet: i32,
}

impl View for DeviceEntry {
    type V = EntryView;

    open spec fn view(&self) -> EntryView {
        EntryView { devid: self.devid@, sheet: self.sheet as int }
    }
}

/// A config as far as matching goes: whether it has the wildcard.
#[derive(Debug)]
pub struct ConfigIds {
    pub wildcard: bool,
}

/// Every connected device has one match for each of `n` configs.
pub open spec fn matched_against(all: Seq<Connected>, n: nat) -> bool {
    forall|i: int| 0 <= i < all.len() ==> (#[trigger] all[i]).kinds@.len() == n
}

/// The devices that config `ci` governs.
fn governed_devices(all: &Vec<Connected>, ci: usize) -> (r: Vec<usize>)
    ensures
        ints(r@) == governed(text::views(all@), ci as int),
        within(r@, all@.len()),
{
    let ghost v = text::views(all@);
    let mut r: Vec<usize> = Vec::new();
    let mut i: usize = 0;
    assert(ints(r@) =~= Seq::<int>::empty());
    while i < all.len()
        invariant
            i <= all@.len(),
            v == text::views(all@),
            ints(r@) == governed_upto(v, ci as int, i as nat),
            within(r@, all@.len()),
        decreases all.len() - i,
    {
        assert(v[i as int] == all@[i as int]@);
        let here = match devices::governing_config(&all[i].kinds) {
            Some(k) => k == ci,
            None => false,
        };
        if here {
            let ghost before = ints(r@);
            r.push(i);
            assert(ints(r@) =~= before.push(i as int));
        }
        i = i + 1;
    }
    r
}

/// The ids of the devices listed, each once.
fn ids_of(all: &Vec<Connected>, idxs: &Vec<usize>) -> (r: Vec<String>)
    requires
        within(idxs@, all@.len()),
    ensures
        text::texts(r@) == ids_upto(text::views(all@), ints(idxs@), idxs@.len()),
{
    let ghost v = text::views(all@);
    let ghost ix = ints(idxs@);
    let mut r: Vec<String> = Vec::new();
    let mut i: usize = 0;
    assert(text::texts(r@) =~= Seq::<Seq<char>>::empty());
    while i < idxs.len()
        invariant
            i <= idxs@.len(),
            v == text::views(all@),
            ix == ints(idxs@),
            within(idxs@, all@.len()),
            text::texts(r@) == ids_upto(v, ix, i as nat),
        decreases idxs.len() - i,
    {
        assert(idxs@[i as int] < all@.len());
        let ghost before = text::texts(r@);
        let id = all[idxs[i]].dev.devid();
        assert(id@ == v[ix[i as int]].dev.devid());
        let known = strings::listed(&r, id.as_str());
        assert(known == before.contains(id@)) by {
            if known {
                let k = choose|k: int| 0 <= k < r@.len() && #[trigger] r@[k]@ == id@;
                assert(before[k] == id@);
            }
            if before.contains(id@) {
                let k = choose|k: int| 0 <= k < before.len() && before[k] == id@;
                assert(r@[k]@ == id@);
            }
        }
        if !known {
            let ghost idv = id@;
            r.push(id);
            assert(text::texts(r@) =~= before.push(idv));
        }
        i = i + 1;
    }
    r
}

/// Point the ids at `sheet`, except those that the map has.
fn map_all(map: &mut Vec<DeviceEntry>, ids: &Vec<String>, sheet: i32)
    ensures
        text::views(final(map)@) == map_ids(
            text::views(old(map)@),
            text::texts(ids@),
            sheet as int,
            ids@.len(),
        ),
{
    let ghost start = text::views(map@);
    let ghost iv = text::texts(ids@);
    let mut i: usize = 0;
    while i < ids.len()
        invariant
            i <= ids@.len(),
            iv == text::texts(ids@),
            text::views(map@) == map_ids(start, iv, sheet as int, i as nat),
        decreases ids.len() - i,
    {
        let ghost before = text::views(map@);
        assert(iv[i as int] == ids@[i as int]@);
        let known = has_entry(map, ids[i].as_str());
        if !known {
            map.push(DeviceEntry { devid: strings::copy(ids[i].as_str()), sheet });
            assert(text::views(map@) =~= before.push(
                EntryView { devid: iv[i as int], sheet: sheet as int },
            ));
        }
        i = i + 1;
    }
}

/// Whether the map has the id.
fn has_entry(map: &Vec<DeviceEntry>, devid: &str) -> (r: bool)
    ensures
        r == mapped(text::views(map@), devid@),
{
    let ghost v = text::views(map@);
    let mut i: usize = 0;
    while i < map.len()
        invariant
            i <= map@.len(),
            v == text::views(map@),
            forall|j: int| 0 <= j < i ==> (#[trigger] v[j]).devid != devid@,
        decreases map.len() - i,
    {
        assert(v[i as int] == map@[i as int]@);
        if strings::same(map[i].devid.as_str(), devid) {
            return true;
        }
        i = i + 1;
    }
    false
}

// ---------------------------------------------------------------------------
// The sheets
// ---------------------------------------------------------------------------

/// A sheet to show: the config it is of, the device in its header, and the ids of the
/// connected keyboards that matched.
#[derive(Debug, PartialEq, Eq)]
pub struct Sheet {
    pub config: usize,
    pub device: String,
    pub matched_ids: Vec<String>,
}

pub struct SheetView {
    pub config: int,
    pub device: Seq<char>,
    pub matched_ids: Seq<Seq<char>>,
}

impl View for Sheet {
    type V = SheetView;

    open spec fn view(&self) -> SheetView {
        SheetView {
            config: self.config as int,
            device: self.device@,
            matched_ids: text::texts(self.matched_ids@),
        }
    }
}

/// What to show.
#[derive(Debug)]
pub struct Detection {
    pub srcs: Vec<Sheet>,
    /// The sheet of each matched connected keyboard.
    pub device_map: Vec<DeviceEntry>,
    pub subtitle: String,
    /// Keep following connected keyboards while running.
    pub live_devices: bool,
    /// Collisions between the live configs.
    pub id_warnings: Vec<String>,
}

pub struct DetectionView {
    pub srcs: Seq<SheetView>,
    pub device_map: Seq<EntryView>,
    pub subtitle: Seq<char>,
    pub live_devices: bool,
    pub id_warnings: Seq<Seq<char>>,
}

impl View for Detection {
    type V = DetectionView;

    open spec fn view(&self) -> DetectionView {
        DetectionView {
            srcs: text::views(self.srcs@),
            device_map: text::views(self.device_map@),
            subtitle: self.subtitle@,
            live_devices: self.live_devices,
            id_warnings: text::texts(self.id_warnings@),
        }
    }
}

/// Where the configs come from.
#[derive(Debug)]
pub enum Found {
    /// So many of those named as arguments could be read.
    Args(usize),
    /// The live directory is empty; so many examples could be read.
    Examples(usize),
    /// The live configs, the connected devices, and the warnings about collisions.
    Live { configs: Vec<ConfigIds>, devices: Vec<Connected>, warnings: Vec<String> },
}

/// Which configs are read.
#[derive(Debug, Clone, Copy, PartialEq, Eq, Structural)]
pub enum Source {
    /// Those named as arguments.
    Args,
    /// The live ones.
    Live,
    /// The examples.
    Examples,
}

/// Which configs are read: those named as arguments, if any are; else the live ones, if
/// there are any; else the examples.
pub open spec fn source_of(named: nat, live: nat) -> Source {
    if named > 0 {
        Source::Args
    } else if live > 0 {
        Source::Live
    } else {
        Source::Examples
    }
}

/// Which configs are read, from the arguments that follow the program's name and the
/// number of files in the live directory.
pub fn choose_source(args: &Vec<String>, live: usize) -> (r: Source)
    ensures
        r == source_of(positional(text::texts(args@)).len(), live as nat),
{
    let named = config_args(args);
    assert(named@.len() == text::texts(named@).len());
    if named.len() > 0 {
        Source::Args
    } else if live > 0 {
        Source::Live
    } else {
        Source::Examples
    }
}

/// A sheet for each of `n` configs, without a device.
pub open spec fn plain_sheets(n: nat) -> Seq<SheetView> {
    Seq::new(
        n,
        |i: int|
            SheetView { config: i, device: Seq::empty(), matched_ids: Seq::empty() },
    )
}

/// The sheet of config `ci`.
pub open spec fn sheet_of(all: Seq<ConnectedView>, ci: int, wildcard: bool) -> SheetView {
    SheetView {
        config: ci,
        device: config_label(all, governed(all, ci), ci, wildcard),
        matched_ids: matched_ids(all, ci),
    }
}

/// The sheets of the first `n` configs that govern a device, and the map of their ids.
pub open spec fn sheets_upto(all: Seq<ConnectedView>, wild: Seq<bool>, n: nat) -> (
    Seq<SheetView>,
    Seq<EntryView>,
)
    decreases n,
{
    if n == 0 {
        (Seq::empty(), Seq::empty())
    } else {
        let (sheets, map) = sheets_upto(all, wild, (n - 1) as nat);
        let ci = n - 1;
        if governed(all, ci).len() == 0 {
            (sheets, map)
        } else {
            (
                sheets.push(sheet_of(all, ci, wild[ci])),
                map_ids(map, matched_ids(all, ci), sheets.len() as int, matched_ids(all, ci).len()),
            )
        }
    }
}

/// Which configs have the wildcard.
pub open spec fn wildcards(configs: Seq<ConfigIds>) -> Seq<bool> {
    Seq::new(configs.len(), |i: int| configs[i].wildcard)
}

/// What to show for what was found.
pub open spec fn gathered(found: Found) -> DetectionView {
    match found {
        Found::Args(n) => DetectionView {
            srcs: plain_sheets(n as nat),
            device_map: Seq::empty(),
            subtitle: text::decimal(n as nat) + " config(s) from arguments"@,
            live_devices: false,
            id_warnings: Seq::empty(),
        },
        Found::Examples(n) => DetectionView {
            srcs: plain_sheets(n as nat),
            device_map: Seq::empty(),
            subtitle: text::decimal(n as nat)
                + " example keyboard(s) — no /etc/keyd configs found"@,
            live_devices: true,
            id_warnings: Seq::empty(),
        },
        Found::Live { configs, devices, warnings } => {
            let all = text::views(devices@);
            let (sheets, map) = sheets_upto(all, wildcards(configs@), configs@.len());
            if sheets.len() == 0 {
                DetectionView {
                    srcs: plain_sheets(configs@.len()),
                    device_map: Seq::empty(),
                    subtitle: text::decimal(configs@.len())
                        + " config(s) — no connected keyboard detected"@,
                    live_devices: true,
                    id_warnings: text::texts(warnings@),
                }
            } else {
                DetectionView {
                    srcs: sheets,
                    device_map: map,
                    subtitle: text::decimal(sheets.len()) + " connected keyboard(s) detected"@,
                    live_devices: true,
                    id_warnings: text::texts(warnings@),
                }
            }
        },
    }
}

/// A sheet for each of `n` configs, without a device.
fn plain(n: usize) -> (r: Vec<Sheet>)
    ensures
        text::views(r@) == plain_sheets(n as nat),
{
    let mut r: Vec<Sheet> = Vec::new();
    let mut i: usize = 0;
    while i < n
        invariant
            i <= n,
            r@.len() == i,
            forall|j: int|
                0 <= j < i ==> #[trigger] r@[j]@ == (SheetView {
                    config: j,
                    device: Seq::empty(),
                    matched_ids: Seq::empty(),
                }),
        decreases n - i,
    {
        let ids: Vec<String> = Vec::new();
        assert(text::texts(ids@) =~= Seq::<Seq<char>>::empty());
        r.push(Sheet { config: i, device: String::new(), matched_ids: ids });
        i = i + 1;
    }
    assert(text::views(r@) =~= plain_sheets(n as nat));
    r
}

/// Decide which sheets to render, the map from devices to sheets, and a subtitle.
///
/// Configs named as arguments are shown exactly. Otherwise the live configs that govern
/// a connected keyboard are shown, labelled with it; all of them where none does; and the
/// examples where there are none.
pub fn gather_sheets(found: Found) -> (r: Detection)
    requires
        found matches Found::Live { configs, devices, .. } ==> configs@.len() <= i32::MAX
            && matched_against(devices@, configs@.len()),
    ensures
        r@ == gathered(found),
{
    match found {
        Found::Args(n) => {
            let r = Detection {
                srcs: plain(n),
                device_map: Vec::new(),
                subtitle: strings::cat(
                    strings::decimal(n as u64).as_str(),
                    " config(s) from arguments",
                ),
                live_devices: false,
                id_warnings: Vec::new(),
            };
            assert(r@.device_map =~= Seq::<EntryView>::empty());
            assert(r@.id_warnings =~= Seq::<Seq<char>>::empty());
            r
        },
        Found::Examples(n) => {
            let r = Detection {
                srcs: plain(n),
                device_map: Vec::new(),
                subtitle: strings::cat(
                    strings::decimal(n as u64).as_str(),
                    " example keyboard(s) — no /etc/keyd configs found",
                ),
                live_devices: true,
                id_warnings: Vec::new(),
            };
            assert(r@.device_map =~= Seq::<EntryView>::empty());
            assert(r@.id_warnings =~= Seq::<Seq<char>>::empty());
            r
        },
        Found::Live { configs, devices, warnings } => {
            let ghost all = text::views(devices@);
            let ghost wild = wildcards(configs@);
            let mut srcs: Vec<Sheet> = Vec::new();
            let mut map: Vec<DeviceEntry> = Vec::new();
            let mut ci: usize = 0;
            assert(text::views(srcs@) =~= Seq::<SheetView>::empty());
            assert(text::views(map@) =~= Seq::<EntryView>::empty());
            while ci < configs.len()
                invariant
                    ci <= configs@.len(),
                    configs@.len() <= i32::MAX,
                    all == text::views(devices@),
                    wild == wildcards(configs@),
                    matched_against(devices@, configs@.len()),
                    srcs@.len() <= ci,
                    (text::views(srcs@), text::views(map@)) == sheets_upto(all, wild, ci as nat),
                decreases configs.len() - ci,
            {
                let mine = governed_devices(&devices, ci);
                assert(mine@.len() == ints(mine@).len());
                if mine.len() > 0 {
                    let ghost before = text::views(srcs@);
                    let idx: i32 = srcs.len() as i32;
                    let label = label_config(&devices, &mine, ci, configs[ci].wildcard);
                    let ids = ids_of(&devices, &mine);
                    assert(ids@.len() == text::texts(ids@).len());
                    map_all(&mut map, &ids, idx);
                    let one = Sheet { config: ci, device: label, matched_ids: ids };
                    let ghost onev = one@;
                    assert(onev == sheet_of(all, ci as int, wild[ci as int]));
                    srcs.push(one);
                    assert(text::views(srcs@) =~= before.push(onev));
                }
                ci = ci + 1;
            }
            let n: usize = srcs.len();
            if n == 0 {
                let k: usize = configs.len();
                let r = Detection {
                    srcs: plain(k),
                    device_map: Vec::new(),
                    subtitle: strings::cat(
                        strings::decimal(k as u64).as_str(),
                        " config(s) — no connected keyboard detected",
                    ),
                    live_devices: true,
                    id_warnings: warnings,
                };
                assert(r@.device_map =~= Seq::<EntryView>::empty());
                r
            } else {
                Detection {
                    srcs,
                    device_map: map,
                    subtitle: strings::cat(
                        strings::decimal(n as u64).as_str(),
                        " connected keyboard(s) detected",
                    ),
                    live_devices: true,
                    id_warnings: warnings,
                }
            }
        },
    }
}

/// What a rescan says of the first `n` sheets, and the map of their ids.
pub open spec fn rescanned_upto(all: Seq<ConnectedView>, wild: Seq<bool>, n: nat) -> (
    Seq<SheetView>,
    Seq<EntryView>,
)
    decreases n,
{
    if n == 0 {
        (Seq::empty(), Seq::empty())
    } else {
        let (sheets, map) = rescanned_upto(all, wild, (n - 1) as nat);
        let ci = n - 1;
        (
            sheets.push(sheet_of(all, ci, wild[ci])),
            map_ids(map, matched_ids(all, ci), ci, matched_ids(all, ci).len()),
        )
    }
}

/// Match connected keyboards against the sheets already shown, so that one plugged in
/// refreshes the highlight, the label and the map without re-deciding what is shown.
pub fn rescan(configs: &Vec<ConfigIds>, devices: &Vec<Connected>) -> (r: (
    Vec<Sheet>,
    Vec<DeviceEntry>,
))
    requires
        configs@.len() <= i32::MAX,
        matched_against(devices@, configs@.len()),
    ensures
        (text::views(r.0@), text::views(r.1@)) == rescanned_upto(
            text::views(devices@),
            wildcards(configs@),
            configs@.len(),
        ),
{
    let ghost all = text::views(devices@);
    let ghost wild = wildcards(configs@);
    let mut srcs: Vec<Sheet> = Vec::new();
    let mut map: Vec<DeviceEntry> = Vec::new();
    let mut ci: usize = 0;
    assert(text::views(srcs@) =~= Seq::<SheetView>::empty());
    assert(text::views(map@) =~= Seq::<EntryView>::empty());
    while ci < configs.len()
        invariant
            ci <= configs@.len(),
            configs@.len() <= i32::MAX,
            all == text::views(devices@),
            wild == wildcards(configs@),
            matched_against(devices@, configs@.len()),
            (text::views(srcs@), text::views(map@)) == rescanned_upto(all, wild, ci as nat),
        decreases configs.len() - ci,
    {
        let mine = governed_devices(devices, ci);
        let ghost before = text::views(srcs@);
        let label = label_config(devices, &mine, ci, configs[ci].wildcard);
        let ids = ids_of(devices, &mine);
        assert(ids@.len() == text::texts(ids@).len());
        assert(mine@.len() == ints(mine@).len());
        map_all(&mut map, &ids, ci as i32);
        let one = Sheet { config: ci, device: label, matched_ids: ids };
        let ghost onev = one@;
        assert(onev == sheet_of(all, ci as int, wild[ci as int]));
        srcs.push(one);
        assert(text::views(srcs@) =~= before.push(onev));
        ci = ci + 1;
    }
    (srcs, map)
}

// ---------------------------------------------------------------------------
// Texts
// ---------------------------------------------------------------------------

/// A device id, or the wildcard, that several configs claim at the same rank.
#[derive(Debug)]
pub struct IdConflict {
    pub id: String,
    pub kind: MatchKind,
    /// The contesting configs, by position.
    pub configs: Vec<usize>,
}

pub struct IdConflictView {
    pub id: Seq<char>,
    pub kind: MatchKind,
    pub configs: Seq<int>,
}

impl View for IdConflict {
    type V = IdConflictView;

    open spec fn view(&self) -> IdConflictView {
        IdConflictView { id: self.id@, kind: self.kind, configs: ints(self.configs@) }
    }
}

/// The file name of the config at a position; a position without one is said so.
pub open spec fn conflict_file(files: Seq<Seq<char>>, i: int) -> Seq<char> {
    if i < files.len() {
        match paths::file_name(files[i]) {
            Some(f) => f,
            None => files[i],
        }
    } else {
        "(unknown)"@
    }
}

/// Names with commas between them and `and` in front of the last.
pub open spec fn and_list(names: Seq<Seq<char>>) -> Seq<char> {
    if names.len() == 0 {
        Seq::empty()
    } else if names.len() == 1 {
        names[0]
    } else {
        text::join(names.drop_last(), ", "@) + " and "@ + names.last()
    }
}

/// The warning about one conflict.
pub open spec fn conflict_line(files: Seq<Seq<char>>, c: IdConflictView) -> Seq<char> {
    let names = Seq::new(c.configs.len(), |i: int| conflict_file(files, c.configs[i]));
    let what = if c.kind == MatchKind::Wildcard {
        "the wildcard `[ids] *` (any keyboard no other config claims)"@
    } else {
        "device id "@ + c.id
    };
    "⚠ "@ + and_list(names) + " both claim "@ + what
        + " — keyd picks one by file order (nondeterministic); remove the duplicate."@
}

/// Names with commas between them and `and` in front of the last.
fn join_and(names: &Vec<String>) -> (r: String)
    ensures
        r@ == and_list(text::texts(names@)),
{
    let ghost all = text::texts(names@);
    let n: usize = names.len();
    if n == 0 {
        return String::new();
    }
    assert(all[n - 1] == names@[n - 1]@);
    if n == 1 {
        return strings::copy(names[0].as_str());
    }
    let mut head = strings::copy_all(names);
    let ghost whole = head@;
    head.pop();
    assert(text::texts(head@) =~= all.drop_last()) by {
        assert forall|i: int| 0 <= i < head@.len() implies head@[i]@ == all[i] by {
            assert(text::texts(whole)[i] == all[i]);
        }
    }
    strings::cat3(strings::join(&head, ", ").as_str(), " and ", names[n - 1].as_str())
}

/// One warning line for each conflict, naming the contesting files and what they contest.
pub fn format_id_conflicts(files: &Vec<String>, conflicts: &Vec<IdConflict>) -> (r: Vec<String>)
    ensures
        r@.len() == conflicts@.len(),
        forall|i: int|
            0 <= i < r@.len() ==> #[trigger] r@[i]@ == conflict_line(
                text::texts(files@),
                conflicts@[i]@,
            ),
{
    let ghost fv = text::texts(files@);
    let mut r: Vec<String> = Vec::new();
    let mut i: usize = 0;
    while i < conflicts.len()
        invariant
            i <= conflicts@.len(),
            fv == text::texts(files@),
            r@.len() == i,
            forall|j: int|
                0 <= j < i ==> #[trigger] r@[j]@ == conflict_line(fv, conflicts@[j]@),
        decreases conflicts.len() - i,
    {
        let c = &conflicts[i];
        let ghost cv = c@;
        let mut names: Vec<String> = Vec::new();
        let mut k: usize = 0;
        while k < c.configs.len()
            invariant
                k <= c.configs@.len(),
                fv == text::texts(files@),
                cv == c@,
                names@.len() == k,
                forall|j: int|
                    0 <= j < k ==> #[trigger] names@[j]@ == conflict_file(fv, cv.configs[j]),
            decreases c.configs.len() - k,
        {
            let at: usize = c.configs[k];
            assert(cv.configs[k as int] == at);
            let name = if at < files.len() {
                assert(fv[at as int] == files@[at as int]@);
                match paths::file_name_of(files[at].as_str()) {
                    Some(f) => f,
                    None => strings::copy(files[at].as_str()),
                }
            } else {
                strings::copy("(unknown)")
            };
            names.push(name);
            k = k + 1;
        }
        assert(text::texts(names@) =~= Seq::new(
            cv.configs.len(),
            |j: int| conflict_file(fv, cv.configs[j]),
        ));
        let what = match c.kind {
            MatchKind::Wildcard => strings::copy(
                "the wildcard `[ids] *` (any keyboard no other config claims)",
            ),
            _ => strings::cat("device id ", c.id.as_str()),
        };
        let mut line = strings::copy("⚠ ");
        line.append(join_and(&names).as_str());
        line.append(" both claim ");
        line.append(what.as_str());
        line.append(" — keyd picks one by file order (nondeterministic); remove the duplicate.");
        r.push(line);
        i = i + 1;
    }
    r
}

/// The profile shown for an imported board.
pub fn qmk_profile(layout: &str) -> (r: String)
    ensures
        r@ == "QMK \u{00b7} "@ + layout@,
{
    strings::cat("QMK \u{00b7} ", layout)
}

/// The subtitle of an imported board: its layout, its keys, and how many have no name.
pub fn qmk_subtitle(layout: &str, keys: usize, unmapped: usize) -> (r: String)
    ensures
        r@ == import_subtitle(layout@, keys as nat, unmapped as nat),
{
    let mut r = strings::copy("QMK import: ");
    r.append(layout);
    r.append(" (");
    r.append(strings::decimal(keys as u64).as_str());
    r.append(" keys)");
    let ghost head = r@;
    if unmapped > 0 {
        r.append(" \u{2014} ");
        r.append(strings::decimal(unmapped as u64).as_str());
        r.append(" slot(s) unmapped");
        assert(r@ =~= head + (" \u{2014} "@ + text::decimal(unmapped as nat) + " slot(s) unmapped"@));
    } else {
        assert(r@ =~= head + Seq::<char>::empty());
    }
    r
}

/// The first of the arguments that names a config.
pub open spec fn first_conf(args: Seq<Seq<char>>) -> Option<Seq<char>>
    decreases args.len(),
{
    if args.len() == 0 {
        None
    } else if text::ends_with(args[0], ".conf"@) {
        Some(args[0])
    } else {
        first_conf(args.subrange(1, args.len() as int))
    }
}

/// The config laid over an imported board: the first of the arguments that names one.
pub fn qmk_config(args: &Vec<String>) -> (r: Option<String>)
    ensures
        text::opt(r) == first_conf(text::texts(args@)),
{
    let ghost all = text::texts(args@);
    let mut i: usize = 0;
    assert(all.subrange(0, all.len() as int) =~= all);
    while i < args.len()
        invariant
            i <= args@.len(),
            all == text::texts(args@),
            first_conf(all) == first_conf(all.subrange(i as int, all.len() as int)),
        decreases args.len() - i,
    {
        let ghost here = all.subrange(i as int, all.len() as int);
        assert(here.subrange(1, here.len() as int) =~= all.subrange(i + 1, all.len() as int));
        assert(here[0] == args@[i as int]@);
        if strings::ends_with(args[i].as_str(), ".conf") {
            return Some(strings::copy(args[i].as_str()));
        }
        i = i + 1;
    }
    None
}

/// A file that was read, with what went wrong if anything did.
#[derive(Debug)]
pub struct FileRead {
    pub path: String,
    pub error: Option<String>,
}

pub struct FileReadView {
    pub path: Seq<char>,
    pub error: Option<Seq<char>>,
}

impl View for FileRead {
    type V = FileReadView;

    open spec fn view(&self) -> FileReadView {
        FileReadView { path: self.path@, error: text::opt(self.error) }
    }
}

/// An imported board: its layout, how many keys it has, and how many have no name.
#[derive(Debug)]
pub struct Imported {
    pub layout: String,
    pub keys: usize,
    pub unmapped: usize,
}

/// The sheet of an imported board.
#[derive(Debug, PartialEq, Eq)]
pub struct QmkSheet {
    pub source: String,
    pub profile: String,
    pub subtitle: String,
}

pub struct QmkSheetView {
    pub source: Seq<char>,
    pub profile: Seq<char>,
    pub subtitle: Seq<char>,
}

impl View for QmkSheet {
    type V = QmkSheetView;

    open spec fn view(&self) -> QmkSheetView {
        QmkSheetView { source: self.source@, profile: self.profile@, subtitle: self.subtitle@ }
    }
}

/// What went wrong with a file, with its path; none where nothing did.
pub open spec fn read_fault(f: Option<FileReadView>) -> Option<Seq<char>> {
    match f {
        Some(x) => match x.error {
            Some(e) => Some(x.path + ": "@ + e),
            None => None,
        },
        None => None,
    }
}

/// A file, if one was asked for.
pub open spec fn read_opt(f: Option<FileRead>) -> Option<FileReadView> {
    match f {
        Some(x) => Some(x@),
        None => None,
    }
}

/// The subtitle of an imported board.
pub open spec fn import_subtitle(layout: Seq<char>, keys: nat, unmapped: nat) -> Seq<char> {
    "QMK import: "@ + layout + " ("@ + text::decimal(keys) + " keys)"@ + (if unmapped > 0 {
        " \u{2014} "@ + text::decimal(unmapped) + " slot(s) unmapped"@
    } else {
        Seq::empty()
    })
}

/// The sheet of an imported board, or the first thing that went wrong: the layout file,
/// the keymap, the import itself, the config laid over it.
pub open spec fn qmk_outcome(
    info: FileReadView,
    keymap: Option<FileReadView>,
    imported: Result<Imported, String>,
    config: Option<FileReadView>,
) -> Result<QmkSheetView, Seq<char>> {
    if read_fault(Some(info)) is Some {
        Err(read_fault(Some(info))->0)
    } else if read_fault(keymap) is Some {
        Err(read_fault(keymap)->0)
    } else {
        match imported {
            Err(e) => Err(e@),
            Ok(imp) => if read_fault(config) is Some {
                Err(read_fault(config)->0)
            } else {
                Ok(
                    QmkSheetView {
                        source: match config {
                            Some(c) => c.path,
                            None => "(no config)"@,
                        },
                        profile: "QMK \u{00b7} "@ + imp.layout@,
                        subtitle: import_subtitle(
                            imp.layout@,
                            imp.keys as nat,
                            imp.unmapped as nat,
                        ),
                    },
                )
            },
        }
    }
}

fn fault_of(f: &FileRead) -> (r: Option<String>)
    ensures
        text::opt(r) == read_fault(Some(f@)),
{
    match &f.error {
        Some(e) => Some(strings::cat3(f.path.as_str(), ": ", e.as_str())),
        None => None,
    }
}

/// The sheet of a board imported from QMK, from how its files were read and what the
/// import gave; an import that was not tried, because a file before it failed, does not
/// matter.
pub fn qmk_detection(
    info: &FileRead,
    keymap: &Option<FileRead>,
    imported: Result<Imported, String>,
    config: &Option<FileRead>,
) -> (r: Result<QmkSheet, String>)
    ensures
        (match r {
            Ok(s) => Ok(s@),
            Err(e) => Err(e@),
        }) == qmk_outcome(info@, read_opt(*keymap), imported, read_opt(*config)),
{
    if let Some(e) = fault_of(info) {
        return Err(e);
    }
    if let Some(k) = keymap {
        if let Some(e) = fault_of(k) {
            return Err(e);
        }
    }
    match imported {
        Err(e) => Err(e),
        Ok(imp) => {
            let source = match config {
                Some(c) => {
                    if let Some(e) = fault_of(c) {
                        return Err(e);
                    }
                    strings::copy(c.path.as_str())
                },
                None => strings::copy("(no config)"),
            };
            Ok(
                QmkSheet {
                    source,
                    profile: qmk_profile(imp.layout.as_str()),
                    subtitle: qmk_subtitle(imp.layout.as_str(), imp.keys, imp.unmapped),
                },
            )
        },
    }
}

/// One line of the listing: the sheet, its file, and the device on it.
pub open spec fn listing(name: Seq<char>, path: Seq<char>, device: Seq<char>) -> Seq<char> {
    "  "@ + name + " ["@ + path + "]"@ + (if device.len() == 0 {
        Seq::empty()
    } else {
        "  <- "@ + device
    })
}

/// One line of the listing.
pub fn list_line(name: &str, path: &str, device: &str) -> (r: String)
    ensures
        r@ == listing(name@, path@, device@),
{
    let mut r = strings::cat3("  ", name, " [");
    r.append(path);
    r.append("]");
    let ghost head = r@;
    if !device.is_empty() {
        r.append("  <- ");
        r.append(device);
        assert(r@ =~= head + ("  <- "@ + device@));
    } else {
        assert(r@ =~= head + Seq::<char>::empty());
    }
    r
}

// ---------------------------------------------------------------------------
// What holds of every detection
// ---------------------------------------------------------------------------

/// A device is among those of a config exactly where that is the config that governs it;
/// so no device is on two sheets.
pub proof fn a_device_is_on_one_sheet(all: Seq<ConnectedView>, ci: int, n: nat, di: int)
    requires
        n <= all.len(),
    ensures
        governed_upto(all, ci, n).contains(di) <==> 0 <= di < n && devices::best_config(
            all[di].kinds,
        ) == Some(ci),
    decreases n,
{
    if n > 0 {
        a_device_is_on_one_sheet(all, ci, (n - 1) as nat, di);
        let before = governed_upto(all, ci, (n - 1) as nat);
        let now = governed_upto(all, ci, n);
        if now.contains(di) {
            let k = choose|k: int| 0 <= k < now.len() && now[k] == di;
            if k < before.len() {
                assert(before[k] == di);
            }
        }
        if before.contains(di) {
            let k = choose|k: int| 0 <= k < before.len() && before[k] == di;
            assert(now[k] == di);
        }
        if di == n - 1 && devices::best_config(all[di].kinds) == Some(ci) {
            assert(now[now.len() - 1] == di);
        }
    }
}

/// No id is in the map twice.
pub open spec fn map_is_unique(map: Seq<EntryView>) -> bool {
    forall|i: int, j: int|
        0 <= i < j < map.len() ==> (#[trigger] map[i]).devid != (#[trigger] map[j]).devid
}

/// Every entry points at a sheet that lists its id.
pub open spec fn map_points_home(map: Seq<EntryView>, sheets: Seq<SheetView>) -> bool {
    forall|i: int|
        0 <= i < map.len() ==> 0 <= (#[trigger] map[i]).sheet < sheets.len()
            && sheets[map[i].sheet].matched_ids.contains(map[i].devid)
}

proof fn map_ids_keeps(
    map: Seq<EntryView>,
    ids: Seq<Seq<char>>,
    sheet: int,
    n: nat,
    sheets: Seq<SheetView>,
)
    requires
        n <= ids.len(),
        map_is_unique(map),
        map_points_home(map, sheets),
        0 <= sheet < sheets.len(),
        sheets[sheet].matched_ids == ids,
    ensures
        map_is_unique(map_ids(map, ids, sheet, n)),
        map_points_home(map_ids(map, ids, sheet, n), sheets),
    decreases n,
{
    if n > 0 {
        map_ids_keeps(map, ids, sheet, (n - 1) as nat, sheets);
        let before = map_ids(map, ids, sheet, (n - 1) as nat);
        let now = map_ids(map, ids, sheet, n);
        assert(ids.contains(ids[n - 1]));
        assert forall|i: int, j: int| 0 <= i < j < now.len() implies (#[trigger] now[i]).devid != (
        #[trigger] now[j]).devid by {
            if j < before.len() {
                assert(now[i] == before[i] && now[j] == before[j]);
            } else {
                assert(now[i] == before[i]);
                assert(!mapped(before, ids[n - 1]));
            }
        }
        assert forall|i: int| 0 <= i < now.len() implies 0 <= (#[trigger] now[i]).sheet
            < sheets.len() && sheets[now[i].sheet].matched_ids.contains(now[i].devid) by {
            if i < before.len() {
                assert(now[i] == before[i]);
            }
        }
    }
}

proof fn more_sheets_keep_home(map: Seq<EntryView>, sheets: Seq<SheetView>, one: SheetView)
    requires
        map_points_home(map, sheets),
    ensures
        map_points_home(map, sheets.push(one)),
{
    let more = sheets.push(one);
    assert forall|i: int| 0 <= i < map.len() implies 0 <= (#[trigger] map[i]).sheet < more.len()
        && more[map[i].sheet].matched_ids.contains(map[i].devid) by {
        assert(more[map[i].sheet] == sheets[map[i].sheet]);
    }
}

/// Following a keyboard is never ambiguous: in the map of a detection no id stands twice,
/// and each points at a sheet that is shown and lists the id as matched.
pub proof fn device_map_is_sound(all: Seq<ConnectedView>, wild: Seq<bool>, n: nat)
    ensures
        map_is_unique(sheets_upto(all, wild, n).1),
        map_points_home(sheets_upto(all, wild, n).1, sheets_upto(all, wild, n).0),
        map_is_unique(rescanned_upto(all, wild, n).1),
        map_points_home(rescanned_upto(all, wild, n).1, rescanned_upto(all, wild, n).0),
        rescanned_upto(all, wild, n).0.len() == n,
    decreases n,
{
    if n > 0 {
        device_map_is_sound(all, wild, (n - 1) as nat);
        let ci = n - 1;
        let one = sheet_of(all, ci, wild[ci]);
        let ids = matched_ids(all, ci);
        let (s1, m1) = sheets_upto(all, wild, (n - 1) as nat);
        if governed(all, ci).len() > 0 {
            more_sheets_keep_home(m1, s1, one);
            map_ids_keeps(m1, ids, s1.len() as int, ids.len(), s1.push(one));
        }
        let (s2, m2) = rescanned_upto(all, wild, (n - 1) as nat);
        more_sheets_keep_home(m2, s2, one);
        map_ids_keeps(m2, ids, ci, ids.len(), s2.push(one));
    }
}

/// A board is headlined only by real keyboards: each name that goes into a label is that
/// of a listed device with the full key block that is not keyd's own output.
pub proof fn labels_name_real_keyboards(all: Seq<ConnectedView>, idxs: Seq<int>, n: nat)
    requires
        n <= idxs.len(),
    ensures
        forall|g: int|
            0 <= g < groups_upto(all, idxs, n).len() ==> exists|k: int|
                0 <= k < n && may_headline(#[trigger] all[idxs[k]].dev) && all[idxs[k]].dev.name
                    == (#[trigger] groups_upto(all, idxs, n)[g]).name,
    decreases n,
{
    if n > 0 {
        labels_name_real_keyboards(all, idxs, (n - 1) as nat);
        let before = groups_upto(all, idxs, (n - 1) as nat);
        let now = groups_upto(all, idxs, n);
        let d = all[idxs[n - 1]].dev;
        group_at_is_an_index(before, d.devid());
        assert forall|g: int| 0 <= g < now.len() implies exists|k: int|
            0 <= k < n && may_headline(#[trigger] all[idxs[k]].dev) && all[idxs[k]].dev.name == (
            #[trigger] now[g]).name by {
            if may_headline(d) && now[g] == (GroupView { devid: d.devid(), name: d.name }) {
                assert(may_headline(all[idxs[n - 1]].dev));
            } else {
                assert(g < before.len() && now[g] == before[g]);
                let k = choose|k: int|
                    0 <= k < n - 1 && may_headline(#[trigger] all[idxs[k]].dev)
                        && all[idxs[k]].dev.name == before[g].name;
                assert(may_headline(all[idxs[k]].dev));
            }
        }
    }
}

proof fn confs_are_the_conf_names(names: Seq<Seq<char>>)
    ensures
        forall|x: Seq<char>| #[trigger]
            confs(names).contains(x) <==> names.contains(x) && paths::has_conf_extension(x),
    decreases names.len(),
{
    if names.len() > 0 {
        let t = names.drop_last();
        let last = names.last();
        confs_are_the_conf_names(t);
        let before = confs(t);
        let now = confs(names);
        assert forall|x: Seq<char>| #[trigger]
            now.contains(x) <==> names.contains(x) && paths::has_conf_extension(x) by {
            assert(names[names.len() - 1] == last);
            assert(before.contains(x) <==> t.contains(x) && paths::has_conf_extension(x));
            if names.contains(x) {
                let i = choose|i: int| 0 <= i < names.len() && names[i] == x;
                if i < t.len() {
                    assert(t[i] == x);
                }
            }
            if t.contains(x) {
                let i = choose|i: int| 0 <= i < t.len() && t[i] == x;
                assert(names[i] == x);
            }
            if before.contains(x) {
                let i = choose|i: int| 0 <= i < before.len() && before[i] == x;
                assert(now[i] == x);
            }
            if now.contains(x) {
                let i = choose|i: int| 0 <= i < now.len() && now[i] == x;
                if i < before.len() {
                    assert(before[i] == x);
                }
            }
            if x == last && paths::has_conf_extension(last) {
                assert(now[now.len() - 1] == x);
            }
        }
    }
}

/// The config files of a directory come in order, and are exactly the names that end in
/// the extension.
pub proof fn conf_files_are_sorted_and_complete(names: Seq<Seq<char>>)
    ensures
        order::is_sorted(conf_files(names)),
        forall|x: Seq<char>| #[trigger]
            conf_files(names).contains(x) <==> names.contains(x) && paths::has_conf_extension(x),
{
    confs_are_the_conf_names(names);
    order::sorting_sorts(confs(names));
    assert forall|x: Seq<char>| #[trigger]
        conf_files(names).contains(x) <==> names.contains(x) && paths::has_conf_extension(x) by {
        assert(order::sorted(confs(names)).contains(x) <==> confs(names).contains(x));
    }
}

// ---------------------------------------------------------------------------
// What is shown of what is there
// ---------------------------------------------------------------------------

proof fn ids_are_those_listed(all: Seq<ConnectedView>, idxs: Seq<int>, n: nat, id: Seq<char>)
    requires
        n <= idxs.len(),
    ensures
        ids_upto(all, idxs, n).contains(id) <==> exists|k: int|
            0 <= k < n && (#[trigger] all[idxs[k]]).dev.vendor + ":"@ + all[idxs[k]].dev.product
                == id,
    decreases n,
{
    if n > 0 {
        ids_are_those_listed(all, idxs, (n - 1) as nat, id);
        let before = ids_upto(all, idxs, (n - 1) as nat);
        let now = ids_upto(all, idxs, n);
        let last = all[idxs[n - 1]].dev.devid();
        if before.contains(id) {
            let i = choose|i: int| 0 <= i < before.len() && before[i] == id;
            assert(now[i] == id);
        }
        if !before.contains(last) {
            assert(now[now.len() - 1] == last);
        }
        if now.contains(id) {
            let i = choose|i: int| 0 <= i < now.len() && now[i] == id;
            if i < before.len() {
                assert(before[i] == id);
            }
            if id == last {
                let d = all[idxs[n - 1]].dev;
                assert(d.vendor + ":"@ + d.product == id);
            }
        }
        if exists|k: int|
            0 <= k < n && (#[trigger] all[idxs[k]]).dev.vendor + ":"@ + all[idxs[k]].dev.product
                == id {
            let k = choose|k: int|
                0 <= k < n && (#[trigger] all[idxs[k]]).dev.vendor + ":"@
                    + all[idxs[k]].dev.product == id;
            if k < n - 1 {
                assert(before.contains(id));
            } else {
                assert(id == last);
            }
        }
    }
}

/// Device `di` goes to config `ci`.
pub open spec fn goes_to(all: Seq<ConnectedView>, di: int, ci: int) -> bool {
    0 <= di < all.len() && devices::best_config(all[di].kinds) == Some(ci)
}

proof fn governed_are_those_that_go(all: Seq<ConnectedView>, ci: int, di: int)
    ensures
        governed(all, ci).contains(di) <==> goes_to(all, di, ci),
{
    a_device_is_on_one_sheet(all, ci, all.len(), di);
}

/// The ids on a sheet are those of the keyboards that go to its config: all of them, and no
/// other.
pub proof fn a_sheet_lists_its_keyboards(all: Seq<ConnectedView>, ci: int, di: int)
    ensures
        goes_to(all, di, ci) ==> matched_ids(all, ci).contains(
            all[di].dev.vendor + ":"@ + all[di].dev.product,
        ),
        forall|id: Seq<char>| #[trigger]
            matched_ids(all, ci).contains(id) ==> exists|k: int|
                #![trigger all[k]]
                goes_to(all, k, ci) && all[k].dev.vendor + ":"@ + all[k].dev.product == id,
{
    let idxs = governed(all, ci);
    if goes_to(all, di, ci) {
        governed_are_those_that_go(all, ci, di);
        let k = choose|k: int| 0 <= k < idxs.len() && idxs[k] == di;
        let id = all[di].dev.vendor + ":"@ + all[di].dev.product;
        assert(all[idxs[k]].dev.vendor + ":"@ + all[idxs[k]].dev.product == id);
        ids_are_those_listed(all, idxs, idxs.len(), id);
    }
    assert forall|id: Seq<char>| #[trigger] matched_ids(all, ci).contains(id) implies exists|k: int|
        #![trigger all[k]]
        goes_to(all, k, ci) && all[k].dev.vendor + ":"@ + all[k].dev.product == id by {
        ids_are_those_listed(all, idxs, idxs.len(), id);
        let k = choose|k: int|
            0 <= k < idxs.len() && (#[trigger] all[idxs[k]]).dev.vendor + ":"@
                + all[idxs[k]].dev.product == id;
        assert(idxs.contains(idxs[k]));
        governed_are_those_that_go(all, ci, idxs[k]);
        assert(goes_to(all, idxs[k], ci));
    }
}

/// A sheet is that of a config which some connected keyboard goes to.
pub open spec fn is_needed(all: Seq<ConnectedView>, ci: int) -> bool {
    exists|di: int| #[trigger] goes_to(all, di, ci)
}

proof fn needed_is_governing(all: Seq<ConnectedView>, ci: int)
    ensures
        is_needed(all, ci) <==> governed(all, ci).len() > 0,
{
    let g = governed(all, ci);
    if is_needed(all, ci) {
        let di = choose|di: int| #[trigger] goes_to(all, di, ci);
        governed_are_those_that_go(all, ci, di);
    }
    if g.len() > 0 {
        assert(g.contains(g[0]));
        governed_are_those_that_go(all, ci, g[0]);
    }
}

/// The sheets shown are those of the configs that some connected keyboard goes to: each of
/// them once, in the order of the configs, and no other.
pub proof fn every_governing_config_is_shown(all: Seq<ConnectedView>, wild: Seq<bool>, n: nat)
    ensures
        ({
            let sheets = sheets_upto(all, wild, n).0;
            &&& forall|ci: int|
                0 <= ci < n && #[trigger] is_needed(all, ci) ==> exists|s: int|
                    0 <= s < sheets.len() && (#[trigger] sheets[s]).config == ci
            &&& forall|s: int|
                0 <= s < sheets.len() ==> 0 <= (#[trigger] sheets[s]).config < n && is_needed(
                    all,
                    sheets[s].config,
                ) && sheets[s].matched_ids == matched_ids(all, sheets[s].config)
                    && sheets[s].device == config_label(
                    all,
                    governed(all, sheets[s].config),
                    sheets[s].config,
                    wild[sheets[s].config],
                )
            &&& forall|s: int, t: int|
                0 <= s < t < sheets.len() ==> (#[trigger] sheets[s]).config < (
                #[trigger] sheets[t]).config
        }),
    decreases n,
{
    if n > 0 {
        every_governing_config_is_shown(all, wild, (n - 1) as nat);
        let ci = n - 1;
        needed_is_governing(all, ci);
        let before = sheets_upto(all, wild, (n - 1) as nat).0;
        let sheets = sheets_upto(all, wild, n).0;
        assert forall|c: int| 0 <= c < n && #[trigger] is_needed(all, c) implies exists|s: int|
            0 <= s < sheets.len() && (#[trigger] sheets[s]).config == c by {
            if c < ci {
                let s = choose|s: int| 0 <= s < before.len() && (#[trigger] before[s]).config == c;
                assert(sheets[s] == before[s]);
            } else {
                assert(sheets[sheets.len() - 1].config == ci);
            }
        }
        assert forall|s: int| 0 <= s < sheets.len() implies 0 <= (#[trigger] sheets[s]).config < n
            && is_needed(all, sheets[s].config) && sheets[s].matched_ids == matched_ids(
            all,
            sheets[s].config,
        ) && sheets[s].device == config_label(
            all,
            governed(all, sheets[s].config),
            sheets[s].config,
            wild[sheets[s].config],
        ) by {
            if s < before.len() {
                assert(sheets[s] == before[s]);
            }
        }
        assert forall|s: int, t: int| 0 <= s < t < sheets.len() implies (
        #[trigger] sheets[s]).config < (#[trigger] sheets[t]).config by {
            assert(sheets[s] == before[s]);
            if t < before.len() {
                assert(sheets[t] == before[t]);
            }
        }
    }
}

proof fn mapping_adds(map: Seq<EntryView>, ids: Seq<Seq<char>>, sheet: int, n: nat, id: Seq<char>)
    requires
        n <= ids.len(),
    ensures
        mapped(map, id) ==> mapped(map_ids(map, ids, sheet, n), id),
        (exists|k: int| 0 <= k < n && #[trigger] ids[k] == id) ==> mapped(
            map_ids(map, ids, sheet, n),
            id,
        ),
    decreases n,
{
    if n > 0 {
        mapping_adds(map, ids, sheet, (n - 1) as nat, id);
        let before = map_ids(map, ids, sheet, (n - 1) as nat);
        let now = map_ids(map, ids, sheet, n);
        if mapped(before, id) {
            let i = choose|i: int| 0 <= i < before.len() && (#[trigger] before[i]).devid == id;
            assert(now[i].devid == id);
        }
        if !mapped(before, ids[n - 1]) {
            assert(now[now.len() - 1].devid == ids[n - 1]);
        }
        if exists|k: int| 0 <= k < n && #[trigger] ids[k] == id {
            let k = choose|k: int| 0 <= k < n && #[trigger] ids[k] == id;
            if k < n - 1 {
                assert(mapped(before, id));
            }
        }
    }
}

/// Every keyboard that goes to a config is followed: its id is in the map of what is shown,
/// at the start and after a rescan, and the sheet it points at lists it.
pub proof fn every_governed_keyboard_is_followed(
    all: Seq<ConnectedView>,
    wild: Seq<bool>,
    n: nat,
    di: int,
    ci: int,
)
    requires
        0 <= ci < n,
        goes_to(all, di, ci),
    ensures
        mapped(sheets_upto(all, wild, n).1, all[di].dev.vendor + ":"@ + all[di].dev.product),
        mapped(rescanned_upto(all, wild, n).1, all[di].dev.vendor + ":"@ + all[di].dev.product),
    decreases n,
{
    let id = all[di].dev.vendor + ":"@ + all[di].dev.product;
    let m = (n - 1) as nat;
    let ids = matched_ids(all, n - 1);
    let (s1, m1) = sheets_upto(all, wild, m);
    let (s2, m2) = rescanned_upto(all, wild, m);
    mapping_adds(m1, ids, s1.len() as int, ids.len(), id);
    mapping_adds(m2, ids, n - 1, ids.len(), id);
    if ci < n - 1 {
        every_governed_keyboard_is_followed(all, wild, m, di, ci);
    } else {
        a_sheet_lists_its_keyboards(all, ci, di);
        assert(is_needed(all, ci));
        needed_is_governing(all, ci);
        let k = choose|k: int| 0 <= k < ids.len() && ids[k] == id;
        assert(ids[k] == id);
    }
}

/// A rescan keeps the sheets that are shown, one for each config in its place, and says anew
/// of each which keyboards it has.
pub proof fn a_rescan_keeps_the_sheets(all: Seq<ConnectedView>, wild: Seq<bool>, n: nat, i: int)
    requires
        0 <= i < n,
    ensures
        rescanned_upto(all, wild, n).0.len() == n,
        rescanned_upto(all, wild, n).0[i].config == i,
        rescanned_upto(all, wild, n).0[i].matched_ids == matched_ids(all, i),
        rescanned_upto(all, wild, n).0[i].device == config_label(
            all,
            governed(all, i),
            i,
            wild[i],
        ),
    decreases n,
{
    device_map_is_sound(all, wild, n);
    device_map_is_sound(all, wild, (n - 1) as nat);
    if i < n - 1 {
        a_rescan_keeps_the_sheets(all, wild, (n - 1) as nat, i);
    }
}

/// What is shown for what was found: configs that were named are shown as they are, and
/// nothing is followed; examples likewise, but keyboards are waited for; of the live configs
/// those are shown that a connected keyboard goes to, with the map that follows it, and all
/// of them where none does. The subtitle counts them and the warnings are passed on.
pub proof fn what_is_shown_is_what_was_found(found: Found)
    ensures
        ({
            let d = gathered(found);
            &&& found matches Found::Args(n) ==> d.srcs.len() == n && !d.live_devices
                && d.device_map.len() == 0 && d.id_warnings.len() == 0 && d.subtitle
                == text::decimal(n as nat) + " config(s) from arguments"@
            &&& found matches Found::Examples(n) ==> d.srcs.len() == n && d.live_devices
                && d.device_map.len() == 0
            &&& found matches Found::Live { configs, devices, warnings } ==> {
                let all = text::views(devices@);
                let (sheets, map) = sheets_upto(all, wildcards(configs@), configs@.len());
                &&& d.live_devices && d.id_warnings == text::texts(warnings@)
                &&& sheets.len() > 0 ==> d.srcs == sheets && d.device_map == map && d.subtitle
                    == text::decimal(sheets.len()) + " connected keyboard(s) detected"@
                &&& sheets.len() == 0 ==> d.srcs.len() == configs@.len() && d.device_map.len()
                    == 0
            }
            &&& !(found is Live) || d.device_map.len() == 0 ==> forall|i: int|
                0 <= i < d.srcs.len() && !(found is Live) ==> (#[trigger] d.srcs[i]).config == i
                    && d.srcs[i].device.len() == 0
        }),
{
}

/// Configs that are named are read before the live ones, and those before the examples.
pub proof fn named_configs_come_first(named: nat, live: nat)
    ensures
        source_of(named, live) is Args <==> named > 0,
        source_of(named, live) is Live <==> named == 0 && live > 0,
        source_of(named, live) is Examples <==> named == 0 && live == 0,
{
}

/// A flag has the argument behind its first mention, and none where it is not there or
/// nothing follows.
pub proof fn a_flag_has_the_argument_behind_it(args: Seq<Seq<char>>, name: Seq<char>, i: int)
    requires
        0 <= i < args.len(),
        args[i] == name,
        forall|j: int| 0 <= j < i ==> #[trigger] args[j] != name,
    ensures
        i + 1 < args.len() ==> value_after(args, name) == Some(args[i + 1]),
        i + 1 == args.len() ==> value_after(args, name) is None,
    decreases args.len(),
{
    let rest = args.subrange(1, args.len() as int);
    if i > 0 {
        assert(args[0] != name);
        assert forall|j: int| 0 <= j < i - 1 implies #[trigger] rest[j] != name by {
            assert(rest[j] == args[j + 1]);
        }
        assert(rest[i - 1] == args[i]);
        a_flag_has_the_argument_behind_it(rest, name, i - 1);
    }
}

/// A flag that is not there has no value.
pub proof fn a_missing_flag_has_no_value(args: Seq<Seq<char>>, name: Seq<char>)
    requires
        !args.contains(name),
    ensures
        value_after(args, name) is None,
    decreases args.len(),
{
    if args.len() > 0 {
        let rest = args.subrange(1, args.len() as int);
        assert(args.contains(args[0]));
        assert(!rest.contains(name)) by {
            if rest.contains(name) {
                let i = choose|i: int| 0 <= i < rest.len() && rest[i] == name;
                assert(args[i + 1] == name);
            }
        }
        a_missing_flag_has_no_value(rest, name);
    }
}

/// The configs named on the command line are the arguments that are neither flags nor the
/// value of a flag that takes one, in their order.
pub proof fn configs_are_told_from_flags(arg: Seq<char>, value: Seq<char>, rest: Seq<Seq<char>>)
    ensures
        arg == "--layout"@ || arg == "--helper-socket"@ ==> positional(seq![arg, value] + rest)
            == positional(rest) && positional(seq![arg]).len() == 0,
        arg != "--layout"@ && arg != "--helper-socket"@ && arg.len() > 0 && arg[0] == '-'
            ==> positional(seq![arg] + rest) == positional(rest),
        arg.len() == 0 || arg[0] != '-' ==> positional(seq![arg] + rest) == seq![arg] + positional(
            rest,
        ),
        positional(Seq::empty()).len() == 0,
{
    reveal_strlit("-");
    reveal_strlit("--layout");
    reveal_strlit("--helper-socket");
    let two = seq![arg, value] + rest;
    let one = seq![arg] + rest;
    assert(two.subrange(1, two.len() as int) =~= seq![value] + rest);
    assert((seq![value] + rest).subrange(1, (seq![value] + rest).len() as int) =~= rest);
    assert(one.subrange(1, one.len() as int) =~= rest);
    if arg.len() > 0 && arg[0] == '-' {
        assert(arg.subrange(0, 1) =~= "-"@);
    }
    if text::starts_with(arg, "-"@) {
        assert(arg.subrange(0, 1)[0] == '-');
    }
    assert(seq![arg].subrange(1, 1) =~= Seq::<Seq<char>>::empty());
}

/// A header names the keyboards: one by its name, more of them by the first and how many
/// more. Where a config names none of its keyboards itself, it is that of all keyboards if
/// it catches them, and else has no header.
pub proof fn a_header_names_the_keyboards(
    names: Seq<Seq<char>>,
    all: Seq<ConnectedView>,
    idxs: Seq<int>,
    ci: int,
    wildcard: bool,
)
    ensures
        names.len() == 1 ==> label_text(names) == names[0],
        names.len() > 1 ==> label_text(names) == names[0] + " (+"@ + text::decimal(
            (names.len() - 1) as nat,
        ) + ")"@,
        names.len() == 0 ==> label_text(names).len() == 0,
        (forall|k: int|
            0 <= k < idxs.len() ==> (#[trigger] all[idxs[k]]).kinds[ci] != MatchKind::Explicit)
            ==> config_label(all, idxs, ci, wildcard) == (if wildcard {
            "all keyboards"@
        } else {
            Seq::empty()
        }),
        (forall|k: int|
            0 <= k < idxs.len() ==> (#[trigger] all[idxs[k]]).kinds[ci] == MatchKind::Explicit)
            && idxs.len() > 0 ==> config_label(all, idxs, ci, wildcard) == device_label(all, idxs),
{
    if forall|k: int|
        0 <= k < idxs.len() ==> (#[trigger] all[idxs[k]]).kinds[ci] != MatchKind::Explicit {
        none_is_explicit(all, idxs, ci, idxs.len());
    }
    if forall|k: int|
        0 <= k < idxs.len() ==> (#[trigger] all[idxs[k]]).kinds[ci] == MatchKind::Explicit {
        all_are_explicit(all, idxs, ci, idxs.len());
        assert(idxs.subrange(0, idxs.len() as int) =~= idxs);
    }
}

proof fn none_is_explicit(all: Seq<ConnectedView>, idxs: Seq<int>, ci: int, n: nat)
    requires
        n <= idxs.len(),
        forall|k: int|
            0 <= k < idxs.len() ==> (#[trigger] all[idxs[k]]).kinds[ci] != MatchKind::Explicit,
    ensures
        explicit_upto(all, idxs, ci, n).len() == 0,
    decreases n,
{
    if n > 0 {
        none_is_explicit(all, idxs, ci, (n - 1) as nat);
        assert(all[idxs[n - 1]].kinds[ci] != MatchKind::Explicit);
    }
}

proof fn all_are_explicit(all: Seq<ConnectedView>, idxs: Seq<int>, ci: int, n: nat)
    requires
        n <= idxs.len(),
        forall|k: int|
            0 <= k < idxs.len() ==> (#[trigger] all[idxs[k]]).kinds[ci] == MatchKind::Explicit,
    ensures
        explicit_upto(all, idxs, ci, n) == idxs.subrange(0, n as int),
    decreases n,
{
    if n > 0 {
        all_are_explicit(all, idxs, ci, (n - 1) as nat);
        assert(all[idxs[n - 1]].kinds[ci] == MatchKind::Explicit);
        assert(idxs.subrange(0, n as int) =~= idxs.subrange(0, n - 1).push(idxs[n - 1]));
    } else {
        assert(idxs.subrange(0, 0) =~= Seq::<int>::empty());
    }
}

proof fn a_group_stays(list: Seq<GroupView>, d: DeviceView, g: int)
    requires
        0 <= g < list.len(),
        list[g].name.len() > 0,
    ensures
        g < with_group(list, d).len(),
        with_group(list, d)[g] == list[g],
{
    group_at_is_an_index(list, d.devid());
}

/// A keyboard with a name is always in the header: a listed device with the full key block
/// that is not keyd's own output gives its physical keyboard a name there.
pub proof fn a_named_keyboard_is_in_the_header(all: Seq<ConnectedView>, idxs: Seq<int>, n: nat, k: int)
    requires
        0 <= k < n <= idxs.len(),
        all[idxs[k]].dev.full_keyboard,
        all[idxs[k]].dev.vendor != "0fac"@,
        all[idxs[k]].dev.name.len() > 0,
    ensures
        exists|g: int|
            0 <= g < groups_upto(all, idxs, n).len() && (#[trigger] groups_upto(
                all,
                idxs,
                n,
            )[g]).devid == all[idxs[k]].dev.devid() && groups_upto(all, idxs, n)[g].name.len() > 0,
    decreases n,
{
    let before = groups_upto(all, idxs, (n - 1) as nat);
    let now = groups_upto(all, idxs, n);
    let d = all[idxs[n - 1]].dev;
    let id = all[idxs[k]].dev.devid();
    if k < n - 1 {
        a_named_keyboard_is_in_the_header(all, idxs, (n - 1) as nat, k);
        let g = choose|g: int|
            0 <= g < before.len() && (#[trigger] before[g]).devid == id && before[g].name.len() > 0;
        a_group_stays(before, d, g);
        assert(now[g].devid == id);
    } else {
        group_at_is_an_index(before, id);
        group_has_its_id(before, id);
        match group_at(before, id) {
            None => {
                assert(now[now.len() - 1].devid == id);
            },
            Some(i) => {
                assert(now[i].devid == id && now[i].name.len() > 0);
            },
        }
    }
}

proof fn group_has_its_id(list: Seq<GroupView>, devid: Seq<char>)
    ensures
        group_at(list, devid) is Some ==> 0 <= group_at(list, devid)->0 < list.len()
            && list[group_at(list, devid)->0].devid == devid,
    decreases list.len(),
{
    if list.len() > 0 {
        group_has_its_id(list.drop_last(), devid);
    }
}

/// An import is shown exactly where nothing went wrong; the first thing that did is told,
/// with its file: the layout, the keymap, the import, and then the config over it.
pub proof fn an_import_tells_what_went_wrong(
    info: FileReadView,
    keymap: Option<FileReadView>,
    imported: Result<Imported, String>,
    config: Option<FileReadView>,
)
    ensures
        ({
            let r = qmk_outcome(info, keymap, imported, config);
            let bad_map = keymap is Some && keymap->0.error is Some;
            let bad_conf = config is Some && config->0.error is Some;
            &&& r is Ok <==> info.error is None && !bad_map && imported is Ok && !bad_conf
            &&& info.error is Some ==> r->Err_0 == info.path + ": "@ + info.error->0
            &&& info.error is None && bad_map ==> r->Err_0 == keymap->0.path + ": "@
                + keymap->0.error->0
            &&& info.error is None && !bad_map && imported is Err ==> r->Err_0
                == imported->Err_0@
            &&& info.error is None && !bad_map && imported is Ok && bad_conf ==> r->Err_0
                == config->0.path + ": "@ + config->0.error->0
            &&& r is Ok && config is Some ==> r->Ok_0.source == config->0.path
            &&& r is Ok && config is None ==> r->Ok_0.source == "(no config)"@
            &&& r is Ok ==> r->Ok_0.profile == "QMK \u{00b7} "@ + imported->Ok_0.layout@
        }),
{
}

/// The config over an import is the first argument that ends in the extension.
pub proof fn the_first_config_is_laid_over(args: Seq<Seq<char>>, i: int)
    requires
        0 <= i < args.len(),
        text::ends_with(args[i], ".conf"@),
        forall|j: int| 0 <= j < i ==> !text::ends_with(#[trigger] args[j], ".conf"@),
    ensures
        first_conf(args) == Some(args[i]),
    decreases args.len(),
{
    if i > 0 {
        let rest = args.subrange(1, args.len() as int);
        assert(!text::ends_with(args[0], ".conf"@));
        assert forall|j: int| 0 <= j < i - 1 implies !text::ends_with(
            #[trigger] rest[j],
            ".conf"@,
        ) by {
            assert(rest[j] == args[j + 1]);
        }
        assert(rest[i - 1] == args[i]);
        the_first_config_is_laid_over(rest, i - 1);
    }
}

/// A conflict is told with its files and with what they contest: an id by its name, or the
/// wildcard.
pub proof fn a_conflict_names_what_is_contested(files: Seq<Seq<char>>, c: IdConflictView)
    requires
        c.configs.len() == 2,
    ensures
        conflict_line(files, c) == "⚠ "@ + conflict_file(files, c.configs[0]) + " and "@
            + conflict_file(files, c.configs[1]) + " both claim "@ + (if c.kind
            == MatchKind::Wildcard {
            "the wildcard `[ids] *` (any keyboard no other config claims)"@
        } else {
            "device id "@ + c.id
        }) + " — keyd picks one by file order (nondeterministic); remove the duplicate."@,
        forall|i: int|
            0 <= i < files.len() && paths::file_name(files[i]) is Some ==> #[trigger] conflict_file(
                files,
                i,
            ) == paths::file_name(files[i])->0,
{
    let names = Seq::new(c.configs.len(), |i: int| conflict_file(files, c.configs[i]));
    assert(names.drop_last() =~= seq![names[0]]);
    assert(text::join(names.drop_last(), ", "@) == names[0]);
    assert(conflict_line(files, c) =~= "⚠ "@ + conflict_file(files, c.configs[0]) + " and "@
        + conflict_file(files, c.configs[1]) + " both claim "@ + (if c.kind
        == MatchKind::Wildcard {
        "the wildcard `[ids] *` (any keyboard no other config claims)"@
    } else {
        "device id "@ + c.id
    }) + " — keyd picks one by file order (nondeterministic); remove the duplicate."@);
}

/// A sheet is listed by its name and its file, and by the keyboard on it where there is one.
pub proof fn a_sheet_is_listed_with_its_keyboard(
    name: Seq<char>,
    path: Seq<char>,
    device: Seq<char>,
)
    ensures
        device.len() > 0 ==> listing(name, path, device) == "  "@ + name + " ["@ + path + "]"@ + (
        "  <- "@ + device),
        listing(name, path, Seq::empty()) == "  "@ + name + " ["@ + path + "]"@,
{
    let line = "  "@ + name + " ["@ + path + "]"@;
    assert(line + Seq::<char>::empty() =~= line);
}

/// An imported board is told with its layout and its keys, and with how many of them have no
/// name where there are any.
pub proof fn an_import_is_told_with_its_keys(layout: Seq<char>, keys: nat, unmapped: nat)
    ensures
        import_subtitle(layout, keys, 0) == "QMK import: "@ + layout + " ("@ + text::decimal(keys)
            + " keys)"@,
        unmapped > 0 ==> import_subtitle(layout, keys, unmapped) == "QMK import: "@ + layout + " ("@
            + text::decimal(keys) + " keys)"@ + (" \u{2014} "@ + text::decimal(unmapped)
            + " slot(s) unmapped"@),
{
    let line = "QMK import: "@ + layout + " ("@ + text::decimal(keys) + " keys)"@;
    assert(line + Seq::<char>::empty() =~= line);
}

} // verus!
