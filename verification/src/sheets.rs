//! The sheets and what keeps them current: which layout one is drawn in, when a changed
//! config is read again, and when a plugged or unplugged keyboard changes the view.

use crate::detect::DeviceEntry;
use crate::detect::EntryView;
use crate::paths;
use crate::strings;
use crate::text;
use vstd::prelude::*;

verus! {

// ---------------------------------------------------------------------------
// Layouts
// ---------------------------------------------------------------------------

/// The layout of a sheet: the one forced on the command line, if it is a known one; else
/// the saved choice; else the guess by name.
pub open spec fn layout_of(
    forced: Option<Seq<char>>,
    known: bool,
    saved: Option<Seq<char>>,
    guess: Seq<char>,
) -> Seq<char> {
    if forced is Some && known {
        forced->0
    } else {
        match saved {
            Some(id) => id,
            None => guess,
        }
    }
}

/// The layout of a sheet; `known` says that the forced one is in the catalog.
pub fn layout_choice(
    forced: &Option<String>,
    known: bool,
    saved: &Option<String>,
    guess: &str,
) -> (r: String)
    ensures
        r@ == layout_of(text::opt(*forced), known, text::opt(*saved), guess@),
{
    if let Some(id) = forced {
        if known {
            return strings::copy(id.as_str());
        }
    }
    match saved {
        Some(id) => strings::copy(id.as_str()),
        None => strings::copy(guess),
    }
}

/// How a sheet is labelled: the profile, and the layout that the picker lights.
#[derive(Debug, PartialEq, Eq)]
pub struct SheetLabel {
    pub profile: String,
    pub layout_id: String,
}

/// The profile and the layout of a sheet's label: an imported board goes by its own profile
/// and lights no layout; another by the catalog's name for its layout.
pub open spec fn labelled(
    qmk: Option<Seq<char>>,
    layout_id: Seq<char>,
    name: Option<Seq<char>>,
) -> (Seq<char>, Seq<char>) {
    match qmk {
        Some(p) => (p, Seq::empty()),
        None => (
            match name {
                Some(n) => n,
                None => "ANSI 60%"@,
            },
            layout_id,
        ),
    }
}

/// The label of a sheet.
pub fn sheet_label(qmk: &Option<String>, layout_id: &str, name: &Option<String>) -> (r: SheetLabel)
    ensures
        (r.profile@, r.layout_id@) == labelled(text::opt(*qmk), layout_id@, text::opt(*name)),
{
    match qmk {
        Some(p) => SheetLabel { profile: strings::copy(p.as_str()), layout_id: String::new() },
        None => SheetLabel {
            profile: match name {
                Some(n) => strings::copy(n.as_str()),
                None => strings::copy("ANSI 60%"),
            },
            layout_id: strings::copy(layout_id),
        },
    }
}

/// The layout whose geometry is drawn: the sheet's own where the catalog has it.
pub open spec fn drawn_in(layout_id: Seq<char>, known: bool) -> Seq<char> {
    if known {
        layout_id
    } else {
        "ansi60"@
    }
}

/// The layout whose geometry is drawn.
pub fn geometry_id(layout_id: &str, known: bool) -> (r: String)
    ensures
        r@ == drawn_in(layout_id@, known),
{
    if known {
        strings::copy(layout_id)
    } else {
        strings::copy("ansi60")
    }
}

/// The sheet that a picked layout applies to: the one on screen, unless it was imported.
pub open spec fn picked_for(active: int, imported: Seq<bool>) -> Option<usize> {
    let shown = if active < 0 {
        0
    } else {
        active
    };
    if shown < imported.len() && !imported[shown] {
        Some(shown as usize)
    } else {
        None
    }
}

/// The sheet that a picked layout applies to.
pub fn pick_layout(active: i32, imported: &Vec<bool>) -> (r: Option<usize>)
    ensures
        r == picked_for(active as int, imported@),
{
    let idx: usize = if active < 0 {
        0
    } else {
        active as usize
    };
    if idx < imported.len() && !imported[idx] {
        Some(idx)
    } else {
        None
    }
}

// ---------------------------------------------------------------------------
// Reloading changed configs
// ---------------------------------------------------------------------------

/// When a file was last seen to change; none where it could not be told.
#[derive(Debug)]
pub struct Seen {
    pub path: String,
    pub mtime: Option<u128>,
}

pub struct SeenView {
    pub path: Seq<char>,
    pub mtime: Option<u128>,
}

impl View for Seen {
    type V = SeenView;

    open spec fn view(&self) -> SeenView {
        SeenView { path: self.path@, mtime: self.mtime }
    }
}

/// What was seen of a file; none where it was never looked at.
pub open spec fn seen_of(list: Seq<SeenView>, path: Seq<char>) -> Option<Option<u128>>
    decreases list.len(),
{
    if list.len() == 0 {
        None
    } else if paths::same_path(list.last().path, path) {
        Some(list.last().mtime)
    } else {
        seen_of(list.drop_last(), path)
    }
}

/// A file is read again: it is not the one being edited, it is there, and it is not as it
/// was seen last (a file that is new to the list is read once).
pub open spec fn is_due(
    list: Seq<SeenView>,
    path: Seq<char>,
    editing: Option<Seq<char>>,
    now: Option<u128>,
) -> bool {
    &&& !(editing is Some && paths::same_path(editing->0, path))
    &&& now is Some
    &&& seen_of(list, path) != Some(now)
}

/// The list without the file.
pub open spec fn forgotten(list: Seq<SeenView>, path: Seq<char>) -> Seq<SeenView>
    decreases list.len(),
{
    if list.len() == 0 {
        Seq::empty()
    } else {
        let before = forgotten(list.drop_last(), path);
        if paths::same_path(list.last().path, path) {
            before
        } else {
            before.push(list.last())
        }
    }
}

/// The list with what is seen of a file now in place of what was seen before.
pub open spec fn noted(list: Seq<SeenView>, path: Seq<char>, now: Option<u128>) -> Seq<SeenView> {
    forgotten(list, path).push(SeenView { path, mtime: now })
}

/// The files that are watched, with what was last seen of each.
#[derive(Debug)]
pub struct Watch {
    pub seen: Vec<Seen>,
}

impl View for Watch {
    type V = Seq<SeenView>;

    open spec fn view(&self) -> Seq<SeenView> {
        text::views(self.seen@)
    }
}

impl Watch {
    /// Nothing seen yet.
    pub fn new() -> (r: Watch)
        ensures
            r@ == Seq::<SeenView>::empty(),
    {
        let r = Watch { seen: Vec::new() };
        assert(r@ =~= Seq::<SeenView>::empty());
        r
    }

    /// Note what is seen of a file, so that only a later change reads it again.
    pub fn note(&mut self, path: &str, now: Option<u128>)
        ensures
            final(self)@ == noted(old(self)@, path@, now),
    {
        let ghost all = text::views(self.seen@);
        let mut kept: Vec<Seen> = Vec::new();
        let mut i: usize = 0;
        assert(text::views(kept@) =~= forgotten(all.subrange(0, 0), path@));
        while i < self.seen.len()
            invariant
                i <= self.seen@.len(),
                all == text::views(self.seen@),
                text::views(kept@) == forgotten(all.subrange(0, i as int), path@),
            decreases self.seen.len() - i,
        {
            let ghost next = all.subrange(0, i + 1);
            let ghost before = text::views(kept@);
            assert(next.drop_last() =~= all.subrange(0, i as int));
            assert(next.last() == self.seen@[i as int]@);
            if !paths::is_same_path(self.seen[i].path.as_str(), path) {
                let one = Seen {
                    path: strings::copy(self.seen[i].path.as_str()),
                    mtime: self.seen[i].mtime,
                };
                kept.push(one);
                assert(text::views(kept@) =~= before.push(next.last()));
            }
            i = i + 1;
        }
        assert(all.subrange(0, i as int) =~= all);
        let ghost before = text::views(kept@);
        kept.push(Seen { path: strings::copy(path), mtime: now });
        assert(text::views(kept@) =~= before.push(SeenView { path: path@, mtime: now }));
        self.seen = kept;
    }

    /// What was seen of a file last.
    fn last_seen(&self, path: &str) -> (r: Option<Option<u128>>)
        ensures
            r == seen_of(self@, path@),
    {
        let ghost all = self@;
        let mut i: usize = self.seen.len();
        assert(all.subrange(0, i as int) =~= all);
        while i > 0
            invariant
                i <= self.seen@.len(),
                all == text::views(self.seen@),
                seen_of(all.subrange(0, i as int), path@) == seen_of(all, path@),
            decreases i,
        {
            let ghost now = all.subrange(0, i as int);
            assert(now.drop_last() =~= all.subrange(0, i - 1));
            assert(now.last() == self.seen@[i - 1]@);
            if paths::is_same_path(self.seen[i - 1].path.as_str(), path) {
                return Some(self.seen[i - 1].mtime);
            }
            i = i - 1;
        }
        None
    }

    /// Whether a file is to be read again, from when it changed last (none where it is
    /// missing, as it is in the middle of a save). If so, that is noted.
    pub fn tick(&mut self, path: &str, editing: &Option<String>, now: Option<u128>) -> (r: bool)
        ensures
            r == is_due(old(self)@, path@, text::opt(*editing), now),
            final(self)@ == (if r {
                noted(old(self)@, path@, now)
            } else {
                old(self)@
            }),
    {
        if let Some(e) = editing {
            if paths::is_same_path(e.as_str(), path) {
                return false;
            }
        }
        if now.is_none() {
            return false;
        }
        let last = self.last_seen(path);
        let unchanged = match last {
            Some(Some(t)) => match now {
                Some(n) => t == n,
                None => false,
            },
            _ => false,
        };
        if unchanged {
            return false;
        }
        self.note(path, now);
        true
    }
}

/// A change is read once: seen again with the same time the file is left alone. The file
/// being edited is never read under the editor, and a missing one is never read at all.
pub proof fn a_change_is_read_once(
    list: Seq<SeenView>,
    path: Seq<char>,
    editing: Option<Seq<char>>,
    now: Option<u128>,
)
    ensures
        !is_due(noted(list, path, now), path, editing, now),
        !is_due(list, path, Some(path), now),
        !is_due(list, path, editing, None),
{
    assert(noted(list, path, now).last().path == path);
}

proof fn forgetting_keeps_others(list: Seq<SeenView>, path: Seq<char>, other: Seq<char>)
    requires
        !paths::same_path(path, other),
    ensures
        seen_of(forgotten(list, path), other) == seen_of(list, other),
    decreases list.len(),
{
    if list.len() > 0 {
        forgetting_keeps_others(list.drop_last(), path, other);
        if !paths::same_path(list.last().path, path) {
            assert(forgotten(list, path).drop_last() =~= forgotten(list.drop_last(), path));
        }
    }
}

/// Reading one file again leaves what is known of every other as it was.
pub proof fn other_files_are_untouched(
    list: Seq<SeenView>,
    path: Seq<char>,
    now: Option<u128>,
    other: Seq<char>,
)
    requires
        !paths::same_path(path, other),
    ensures
        seen_of(noted(list, path, now), other) == seen_of(list, other),
{
    forgetting_keeps_others(list, path, other);
    assert(noted(list, path, now).drop_last() =~= forgotten(list, path));
}

// ---------------------------------------------------------------------------
// Plugged and unplugged keyboards
// ---------------------------------------------------------------------------

/// Two device maps hold the same entries, in whatever order.
pub open spec fn same_devices(a: Seq<EntryView>, b: Seq<EntryView>) -> bool {
    a.to_multiset() =~= b.to_multiset()
}

fn copy_entries(v: &Vec<DeviceEntry>) -> (r: Vec<DeviceEntry>)
    ensures
        text::views(r@) == text::views(v@),
{
    let ghost all = text::views(v@);
    let mut r: Vec<DeviceEntry> = Vec::new();
    let mut i: usize = 0;
    while i < v.len()
        invariant
            i <= v@.len(),
            all == text::views(v@),
            text::views(r@) == all.subrange(0, i as int),
        decreases v.len() - i,
    {
        let ghost before = text::views(r@);
        r.push(DeviceEntry { devid: strings::copy(v[i].devid.as_str()), sheet: v[i].sheet });
        assert(text::views(r@) =~= before.push(all[i as int]));
        assert(all.subrange(0, i + 1) =~= before.push(all[i as int]));
        i = i + 1;
    }
    assert(all.subrange(0, i as int) =~= all);
    r
}

/// Where an entry stands in a list.
fn find_entry(list: &Vec<DeviceEntry>, one: &DeviceEntry) -> (r: Option<usize>)
    ensures
        match r {
            Some(k) => k < list@.len() && text::views(list@)[k as int] == one@,
            None => !text::views(list@).contains(one@),
        },
{
    let ghost all = text::views(list@);
    let mut i: usize = 0;
    while i < list.len()
        invariant
            i <= list@.len(),
            all == text::views(list@),
            forall|k: int| 0 <= k < i ==> #[trigger] all[k] != one@,
        decreases list.len() - i,
    {
        assert(all[i as int] == list@[i as int]@);
        if list[i].sheet == one.sheet && strings::same(list[i].devid.as_str(), one.devid.as_str()) {
            return Some(i);
        }
        i = i + 1;
    }
    None
}

proof fn prefix_has_no_more<T>(s: Seq<T>, n: int, x: T)
    requires
        0 <= n <= s.len(),
    ensures
        s.subrange(0, n).to_multiset().count(x) <= s.to_multiset().count(x),
    decreases s.len() - n,
{
    broadcast use vstd::seq_lib::group_to_multiset_ensures;

    if n == s.len() {
        assert(s.subrange(0, n) =~= s);
    } else {
        prefix_has_no_more(s, n + 1, x);
        assert(s.subrange(0, n + 1) =~= s.subrange(0, n).push(s[n]));
    }
}

/// Both lists hold their entries in the same numbers, up to what is left of the second.
spec fn matched_up<T>(done: Seq<T>, left: Seq<T>, all: Seq<T>) -> bool {
    done.to_multiset().add(left.to_multiset()) =~= all.to_multiset()
}

proof fn one_more_matches<T>(done: Seq<T>, left: Seq<T>, all: Seq<T>, k: int)
    requires
        matched_up(done, left, all),
        0 <= k < left.len(),
    ensures
        matched_up(done.push(left[k]), left.remove(k), all),
{
    broadcast use vstd::seq_lib::group_to_multiset_ensures;

    assert(left.contains(left[k]));
    assert(left.to_multiset().count(left[k]) > 0);
}

proof fn none_left_differs<T>(whole: Seq<T>, n: int, left: Seq<T>, all: Seq<T>)
    requires
        0 <= n < whole.len(),
        matched_up(whole.subrange(0, n), left, all),
        !left.contains(whole[n]),
    ensures
        !(whole.to_multiset() =~= all.to_multiset()),
{
    broadcast use vstd::seq_lib::group_to_multiset_ensures;

    let x = whole[n];
    prefix_has_no_more(whole, n + 1, x);
    assert(whole.subrange(0, n + 1) =~= whole.subrange(0, n).push(x));
    assert(left.to_multiset().count(x) == 0);
    assert(all.to_multiset().count(x) == whole.subrange(0, n).to_multiset().count(x));
    assert(whole.to_multiset().count(x) > all.to_multiset().count(x));
}

proof fn all_matched_decides<T>(whole: Seq<T>, left: Seq<T>, all: Seq<T>)
    requires
        matched_up(whole, left, all),
    ensures
        whole.to_multiset() =~= all.to_multiset() <==> left.len() == 0,
{
    broadcast use vstd::seq_lib::group_to_multiset_ensures;

    if left.len() > 0 {
        let x = left[0];
        assert(left.contains(x));
        assert(left.to_multiset().count(x) > 0);
        assert(all.to_multiset().count(x) > whole.to_multiset().count(x));
    } else {
        assert(left.to_multiset().len() == 0);
        assert(whole.to_multiset() =~= all.to_multiset());
    }
}

/// Whether the connected keyboards changed since the last scan: the two device maps hold
/// different entries.
pub fn devices_changed(last: &Vec<DeviceEntry>, now: &Vec<DeviceEntry>) -> (r: bool)
    ensures
        r == !same_devices(text::views(last@), text::views(now@)),
{
    let ghost a = text::views(last@);
    let ghost b = text::views(now@);
    let mut rest = copy_entries(now);
    let mut i: usize = 0;
    proof {
        broadcast use vstd::seq_lib::group_to_multiset_ensures;

        assert(a.subrange(0, 0).to_multiset().len() == 0);
        assert(matched_up(a.subrange(0, 0), text::views(rest@), b));
    }
    while i < last.len()
        invariant
            i <= last@.len(),
            a == text::views(last@),
            b == text::views(now@),
            matched_up(a.subrange(0, i as int), text::views(rest@), b),
        decreases last.len() - i,
    {
        let ghost left = text::views(rest@);
        assert(a[i as int] == last@[i as int]@);
        match find_entry(&rest, &last[i]) {
            Some(k) => {
                proof {
                    one_more_matches(a.subrange(0, i as int), left, b, k as int);
                }
                assert(a.subrange(0, i + 1) =~= a.subrange(0, i as int).push(left[k as int]));
                rest.remove(k);
                assert(text::views(rest@) =~= left.remove(k as int));
            },
            None => {
                proof {
                    none_left_differs(a, i as int, left, b);
                }
                return true;
            },
        }
        i = i + 1;
    }
    assert(a.subrange(0, i as int) =~= a);
    proof {
        all_matched_decides(a, text::views(rest@), b);
    }
    assert(text::views(rest@).len() == rest@.len());
    rest.len() > 0
}

// ---------------------------------------------------------------------------
// What is chosen, and what is noticed
// ---------------------------------------------------------------------------

/// A known layout that is forced comes before a saved one, and that before the guess; one
/// that is forced and not known changes nothing.
pub proof fn the_forced_layout_comes_first(
    forced: Seq<char>,
    known: bool,
    saved: Option<Seq<char>>,
    guess: Seq<char>,
)
    ensures
        layout_of(Some(forced), true, saved, guess) == forced,
        layout_of(Some(forced), false, saved, guess) == layout_of(None, known, saved, guess),
        saved is Some ==> layout_of(None, known, saved, guess) == saved->0,
        saved is None ==> layout_of(None, known, saved, guess) == guess,
{
}

/// An imported board goes by its own profile and lights no layout; another goes by the
/// catalog's name for its layout, and lights it. Every sheet is drawn in its own layout where
/// the catalog has that one.
pub proof fn an_imported_board_has_no_layout(
    profile: Seq<char>,
    layout_id: Seq<char>,
    name: Seq<char>,
)
    ensures
        labelled(Some(profile), layout_id, Some(name)).0 == profile,
        labelled(Some(profile), layout_id, None).0 == profile,
        labelled(Some(profile), layout_id, Some(name)).1.len() == 0,
        labelled(Some(profile), layout_id, None).1.len() == 0,
        labelled(None, layout_id, Some(name)) == (name, layout_id),
        labelled(None, layout_id, None) == ("ANSI 60%"@, layout_id),
        drawn_in(layout_id, true) == layout_id,
        drawn_in(layout_id, false) == "ansi60"@,
{
}

/// A picked layout is for the sheet on screen, which is the first where none was chosen yet,
/// and for none where that is imported or not there.
pub proof fn a_layout_is_picked_for_the_sheet_on_screen(active: int, imported: Seq<bool>)
    requires
        imported.len() <= usize::MAX,
    ensures
        0 <= active < imported.len() && !imported[active] ==> picked_for(active, imported)
            == Some(active as usize),
        0 <= active < imported.len() && imported[active] ==> picked_for(active, imported) is None,
        active >= imported.len() ==> picked_for(active, imported) is None,
        active < 0 ==> picked_for(active, imported) == picked_for(0, imported),
{
}

proof fn unseen_is_none(list: Seq<SeenView>, path: Seq<char>)
    requires
        forall|i: int| 0 <= i < list.len() ==> !paths::same_path((#[trigger] list[i]).path, path),
    ensures
        seen_of(list, path) is None,
    decreases list.len(),
{
    if list.len() > 0 {
        assert(!paths::same_path(list[list.len() - 1].path, path));
        assert forall|i: int| 0 <= i < list.drop_last().len() implies !paths::same_path(
            (#[trigger] list.drop_last()[i]).path,
            path,
        ) by {
            assert(list.drop_last()[i] == list[i]);
        }
        unseen_is_none(list.drop_last(), path);
    }
}

/// A change is noticed: a file that was seen is read again exactly where it is there with
/// another time than before, and one that was never seen as soon as it is there, unless it
/// is being edited. Editing another file is no hindrance.
pub proof fn a_change_is_noticed(
    list: Seq<SeenView>,
    path: Seq<char>,
    before: Option<u128>,
    now: Option<u128>,
    editing: Option<Seq<char>>,
)
    requires
        editing is Some ==> !paths::same_path(editing->0, path),
    ensures
        is_due(noted(list, path, before), path, editing, now) <==> now is Some && now != before,
        (forall|i: int| 0 <= i < list.len() ==> !paths::same_path((#[trigger] list[i]).path, path))
            ==> (is_due(list, path, editing, now) <==> now is Some),
{
    let after = noted(list, path, before);
    assert(after.last().path == path);
    if forall|i: int| 0 <= i < list.len() ==> !paths::same_path((#[trigger] list[i]).path, path) {
        unseen_is_none(list, path);
    }
}

/// The order in which keyboards are found is no change; one more or one less is, and so is
/// one that is there now and was not, or that points at another sheet.
pub proof fn a_plugged_keyboard_is_a_change(
    a: Seq<EntryView>,
    b: Seq<EntryView>,
    one: EntryView,
)
    ensures
        same_devices(a, a),
        same_devices(a + b, b + a),
        !same_devices(a, a.push(one)),
        !same_devices(a.push(one), a),
        a.len() != b.len() ==> !same_devices(a, b),
        a.contains(one) && !b.contains(one) ==> !same_devices(a, b) && !same_devices(b, a),
{
    broadcast use vstd::seq_lib::group_to_multiset_ensures;

    vstd::seq_lib::lemma_multiset_commutative(a, b);
    vstd::seq_lib::lemma_multiset_commutative(b, a);
    assert((a + b).to_multiset() =~= (b + a).to_multiset());
    assert(a.to_multiset().len() == a.len());
    assert(b.to_multiset().len() == b.len());
    assert(a.push(one).to_multiset().len() == a.len() + 1);
    if a.contains(one) && !b.contains(one) {
        assert(a.to_multiset().contains(one));
        assert(!b.to_multiset().contains(one));
    }
}

} // verus!
