//! How one key event changes the view: which keyboard is shown, and which keys are held.

use crate::detect::DeviceEntry;
use crate::detect::EntryView;
use crate::strings;
use crate::text;
use vstd::prelude::*;

verus! {

/// What a key did.
#[derive(Debug, Clone, Copy, PartialEq, Eq, Structural)]
pub enum KeyAction {
    Down,
    Up,
    Repeat,
}

/// One key event.
#[derive(Debug, PartialEq, Eq)]
pub struct KeyEvent {
    pub devid: String,
    pub device: String,
    pub key: String,
    pub action: KeyAction,
}

pub struct KeyEventView {
    pub devid: Seq<char>,
    pub device: Seq<char>,
    pub key: Seq<char>,
    pub action: KeyAction,
}

impl View for KeyEvent {
    type V = KeyEventView;

    open spec fn view(&self) -> KeyEventView {
        KeyEventView {
            devid: self.devid@,
            device: self.device@,
            key: self.key@,
            action: self.action,
        }
    }
}

/// What a key event does to the view.
#[derive(Debug, PartialEq, Eq)]
pub struct Press {
    /// The sheet to switch to, where the last-pressed keyboard changed.
    pub switch_to: Option<i32>,
    /// The keys held after the event, each once, in the order they went down.
    pub pressed: Vec<String>,
}

pub struct PressView {
    pub switch_to: Option<int>,
    pub pressed: Seq<Seq<char>>,
}

impl View for Press {
    type V = PressView;

    open spec fn view(&self) -> PressView {
        PressView {
            switch_to: match self.switch_to {
                Some(i) => Some(i as int),
                None => None,
            },
            pressed: text::texts(self.pressed@),
        }
    }
}

/// The sheet of the id, by the first entry that has it.
pub open spec fn sheet_for(map: Seq<EntryView>, devid: Seq<char>) -> Option<int>
    decreases map.len(),
{
    if map.len() == 0 {
        None
    } else {
        match sheet_for(map.drop_last(), devid) {
            Some(s) => Some(s),
            None => if map.last().devid == devid {
                Some(map.last().sheet)
            } else {
                None
            },
        }
    }
}

/// The keys without `key`.
pub open spec fn without(keys: Seq<Seq<char>>, key: Seq<char>) -> Seq<Seq<char>>
    decreases keys.len(),
{
    if keys.len() == 0 {
        Seq::empty()
    } else {
        let before = without(keys.drop_last(), key);
        if keys.last() == key {
            before
        } else {
            before.push(keys.last())
        }
    }
}

/// The keys held after an action on `key`.
pub open spec fn held_after(held: Seq<Seq<char>>, key: Seq<char>, action: KeyAction) -> Seq<
    Seq<char>,
> {
    match action {
        KeyAction::Up => without(held, key),
        _ => if held.contains(key) {
            held
        } else {
            held.push(key)
        },
    }
}

/// What a key event does to the view. keyd re-emits the keyboards it grabs through one
/// virtual device, so a device that is not in the map counts for the board already
/// shown; one that is can switch the view, and a switch forgets the keys held before.
pub open spec fn press_state(
    ev: KeyEventView,
    map: Seq<EntryView>,
    active: int,
    held: Seq<Seq<char>>,
) -> PressView {
    match sheet_for(map, ev.devid) {
        Some(s) => if s != active {
            PressView {
                switch_to: Some(s),
                pressed: held_after(Seq::empty(), ev.key, ev.action),
            }
        } else {
            PressView { switch_to: None, pressed: held_after(held, ev.key, ev.action) }
        },
        None => PressView { switch_to: None, pressed: held_after(held, ev.key, ev.action) },
    }
}

proof fn sheet_for_is_stable(map: Seq<EntryView>, devid: Seq<char>, n: int)
    requires
        0 <= n <= map.len(),
        sheet_for(map.subrange(0, n), devid) is Some,
    ensures
        sheet_for(map, devid) == sheet_for(map.subrange(0, n), devid),
    decreases map.len(),
{
    if n < map.len() {
        assert(map.drop_last().subrange(0, n) =~= map.subrange(0, n));
        sheet_for_is_stable(map.drop_last(), devid, n);
    } else {
        assert(map.subrange(0, n) =~= map);
    }
}

/// The sheet of the id.
fn find_sheet(map: &Vec<DeviceEntry>, devid: &str) -> (r: Option<i32>)
    ensures
        match r {
            Some(s) => sheet_for(text::views(map@), devid@) == Some(s as int),
            None => sheet_for(text::views(map@), devid@) is None,
        },
{
    let ghost v = text::views(map@);
    let mut i: usize = 0;
    while i < map.len()
        invariant
            i <= map@.len(),
            v == text::views(map@),
            sheet_for(v.subrange(0, i as int), devid@) is None,
        decreases map.len() - i,
    {
        let ghost next = v.subrange(0, i + 1);
        assert(next.drop_last() =~= v.subrange(0, i as int));
        assert(next.last() == map@[i as int]@);
        if strings::same(map[i].devid.as_str(), devid) {
            proof {
                sheet_for_is_stable(v, devid@, i + 1);
            }
            return Some(map[i].sheet);
        }
        i = i + 1;
    }
    assert(v.subrange(0, i as int) =~= v);
    None
}

/// The keys without `key`.
pub fn remove_key(keys: &Vec<String>, key: &str) -> (r: Vec<String>)
    ensures
        text::texts(r@) == without(text::texts(keys@), key@),
{
    let ghost all = text::texts(keys@);
    let mut r: Vec<String> = Vec::new();
    let mut i: usize = 0;
    assert(text::texts(r@) =~= Seq::<Seq<char>>::empty());
    while i < keys.len()
        invariant
            i <= keys@.len(),
            all == text::texts(keys@),
            text::texts(r@) == without(all.subrange(0, i as int), key@),
        decreases keys.len() - i,
    {
        let ghost next = all.subrange(0, i + 1);
        assert(next.drop_last() =~= all.subrange(0, i as int));
        assert(next.last() == keys@[i as int]@);
        if !strings::same(keys[i].as_str(), key) {
            let ghost before = text::texts(r@);
            r.push(strings::copy(keys[i].as_str()));
            assert(text::texts(r@) =~= before.push(next.last()));
        }
        i = i + 1;
    }
    assert(all.subrange(0, i as int) =~= all);
    r
}

/// Whether the list holds the word, over its views.
pub fn holds(keys: &Vec<String>, key: &str) -> (r: bool)
    ensures
        r == text::texts(keys@).contains(key@),
{
    let ghost all = text::texts(keys@);
    let r = strings::listed(keys, key);
    proof {
        if r {
            let k = choose|k: int| 0 <= k < keys@.len() && #[trigger] keys@[k]@ == key@;
            assert(all[k] == key@);
        }
        if all.contains(key@) {
            let k = choose|k: int| 0 <= k < all.len() && all[k] == key@;
            assert(keys@[k]@ == key@);
        }
    }
    r
}

/// Decide how one key event changes the view, given the map from devices to sheets, the
/// sheet that is shown, and the keys held.
pub fn next_press_state(
    ev: &KeyEvent,
    map: &Vec<DeviceEntry>,
    active_idx: i32,
    current_pressed: &Vec<String>,
) -> (r: Press)
    ensures
        r@ == press_state(
            ev@,
            text::views(map@),
            active_idx as int,
            text::texts(current_pressed@),
        ),
{
    let switch_to = match find_sheet(map, ev.devid.as_str()) {
        Some(s) => if s != active_idx {
            Some(s)
        } else {
            None
        },
        None => None,
    };
    let before: Vec<String> = match switch_to {
        Some(_) => Vec::new(),
        None => strings::copy_all(current_pressed),
    };
    let ghost held = text::texts(before@);
    proof {
        if switch_to is Some {
            assert(held =~= Seq::<Seq<char>>::empty());
        }
    }
    let pressed = match ev.action {
        KeyAction::Up => remove_key(&before, ev.key.as_str()),
        _ => if holds(&before, ev.key.as_str()) {
            before
        } else {
            let mut more = before;
            more.push(strings::copy(ev.key.as_str()));
            assert(text::texts(more@) =~= held.push(ev.key@));
            more
        },
    };
    Press { switch_to, pressed }
}

// ---------------------------------------------------------------------------
// What holds of every sequence of events
// ---------------------------------------------------------------------------

/// Each key once.
pub open spec fn each_once(keys: Seq<Seq<char>>) -> bool {
    forall|i: int, j: int| 0 <= i < j < keys.len() ==> #[trigger] keys[i] != #[trigger] keys[j]
}

proof fn without_lacks(keys: Seq<Seq<char>>, key: Seq<char>)
    ensures
        !without(keys, key).contains(key),
        forall|x: Seq<char>|
            x != key ==> (#[trigger] without(keys, key).contains(x) <==> keys.contains(x)),
        each_once(keys) ==> each_once(without(keys, key)),
    decreases keys.len(),
{
    if keys.len() > 0 {
        let t = keys.drop_last();
        let last = keys.last();
        without_lacks(t, key);
        let before = without(t, key);
        let now = without(keys, key);
        assert(keys[keys.len() - 1] == last);
        if now.contains(key) {
            let i = choose|i: int| 0 <= i < now.len() && now[i] == key;
            if i < before.len() {
                assert(before[i] == key);
            }
        }
        assert forall|x: Seq<char>| x != key implies (#[trigger] now.contains(x)
            <==> keys.contains(x)) by {
            assert(before.contains(x) <==> t.contains(x));
            if now.contains(x) {
                let i = choose|i: int| 0 <= i < now.len() && now[i] == x;
                if i < before.len() {
                    assert(before[i] == x);
                    let k = choose|k: int| 0 <= k < t.len() && t[k] == x;
                    assert(keys[k] == x);
                }
            }
            if keys.contains(x) {
                let i = choose|i: int| 0 <= i < keys.len() && keys[i] == x;
                if i < t.len() {
                    assert(t[i] == x);
                    let k = choose|k: int| 0 <= k < before.len() && before[k] == x;
                    assert(now[k] == x);
                } else {
                    assert(now[now.len() - 1] == x);
                }
            }
        }
        if each_once(keys) {
            assert forall|i: int, j: int| 0 <= i < j < t.len() implies #[trigger] t[i]
                != #[trigger] t[j] by {
                assert(keys[i] != keys[j]);
            }
            assert forall|i: int, j: int| 0 <= i < j < now.len() implies #[trigger] now[i]
                != #[trigger] now[j] by {
                if j < before.len() {
                    assert(before[i] != before[j]);
                } else {
                    assert(before.contains(before[i]));
                    if before[i] == last {
                        assert(t.contains(last));
                        let k = choose|k: int| 0 <= k < t.len() && t[k] == last;
                        assert(keys[k] != keys[keys.len() - 1]);
                    }
                }
            }
        }
    }
}

/// The held keys stay a set: whatever happens, each key is held once; a key that went
/// down or repeats is held, one that went up is not, and no other key changes unless the
/// view switches, which forgets them all.
pub proof fn held_keys_stay_a_set(
    ev: KeyEventView,
    map: Seq<EntryView>,
    active: int,
    held: Seq<Seq<char>>,
)
    requires
        each_once(held),
    ensures
        ({
            let p = press_state(ev, map, active, held);
            &&& each_once(p.pressed)
            &&& p.pressed.contains(ev.key) <==> ev.action != KeyAction::Up
            &&& p.switch_to is None ==> forall|x: Seq<char>|
                x != ev.key ==> (#[trigger] p.pressed.contains(x) <==> held.contains(x))
            &&& p.switch_to is Some ==> forall|x: Seq<char>|
                x != ev.key ==> !#[trigger] p.pressed.contains(x)
        }),
{
    let p = press_state(ev, map, active, held);
    let base = if p.switch_to is Some {
        Seq::<Seq<char>>::empty()
    } else {
        held
    };
    without_lacks(base, ev.key);
    if ev.action != KeyAction::Up && !base.contains(ev.key) {
        let now = base.push(ev.key);
        assert(now[base.len() as int] == ev.key);
        assert forall|i: int, j: int| 0 <= i < j < now.len() implies #[trigger] now[i]
            != #[trigger] now[j] by {
            if j == base.len() {
                assert(base.contains(base[i]));
            }
        }
        assert forall|x: Seq<char>| x != ev.key implies (#[trigger] now.contains(x)
            <==> base.contains(x)) by {
            if base.contains(x) {
                let i = choose|i: int| 0 <= i < base.len() && base[i] == x;
                assert(now[i] == x);
            }
            if now.contains(x) {
                let i = choose|i: int| 0 <= i < now.len() && now[i] == x;
                assert(base[i] == x);
            }
        }
    }
}

/// A key that went down and up again leaves the held keys as they were.
pub proof fn down_then_up_changes_nothing(held: Seq<Seq<char>>, key: Seq<char>)
    requires
        !held.contains(key),
    ensures
        held_after(held_after(held, key, KeyAction::Down), key, KeyAction::Up) == held,
{
    let now = held.push(key);
    assert(now.drop_last() =~= held);
    without_absent(held, key);
}

proof fn without_absent(keys: Seq<Seq<char>>, key: Seq<char>)
    requires
        !keys.contains(key),
    ensures
        without(keys, key) == keys,
    decreases keys.len(),
{
    if keys.len() > 0 {
        let t = keys.drop_last();
        assert forall|i: int| 0 <= i < t.len() implies t[i] != key by {
            assert(keys.contains(keys[i]));
        }
        without_absent(t, key);
        assert(keys.contains(keys[keys.len() - 1]));
        assert(t.push(keys.last()) =~= keys);
    }
}

/// Entry `i` is the first of the map with the id.
pub open spec fn is_first_entry(map: Seq<EntryView>, devid: Seq<char>, i: int) -> bool {
    &&& 0 <= i < map.len()
    &&& map[i].devid == devid
    &&& forall|j: int| 0 <= j < i ==> (#[trigger] map[j]).devid != devid
}

/// A device belongs to the sheet of its first entry in the map, and to none where it has no
/// entry.
pub proof fn a_device_has_the_sheet_of_its_entry(map: Seq<EntryView>, devid: Seq<char>)
    ensures
        forall|i: int| #[trigger]
            is_first_entry(map, devid, i) ==> sheet_for(map, devid) == Some(map[i].sheet),
        (forall|i: int| 0 <= i < map.len() ==> (#[trigger] map[i]).devid != devid) ==> sheet_for(
            map,
            devid,
        ) is None,
    decreases map.len(),
{
    if map.len() > 0 {
        let t = map.drop_last();
        a_device_has_the_sheet_of_its_entry(t, devid);
        assert forall|i: int| #[trigger] is_first_entry(map, devid, i) implies sheet_for(map, devid)
            == Some(map[i].sheet) by {
            if i < t.len() {
                assert forall|j: int| 0 <= j < i implies (#[trigger] t[j]).devid != devid by {
                    assert(t[j] == map[j]);
                }
                assert(is_first_entry(t, devid, i));
            } else {
                assert forall|j: int| 0 <= j < t.len() implies (#[trigger] t[j]).devid
                    != devid by {
                    assert(t[j] == map[j]);
                }
            }
        }
        if forall|i: int| 0 <= i < map.len() ==> (#[trigger] map[i]).devid != devid {
            assert forall|j: int| 0 <= j < t.len() implies (#[trigger] t[j]).devid != devid by {
                assert(t[j] == map[j]);
            }
            assert(map[map.len() - 1].devid != devid);
        }
    }
}

/// A key event of a device on another sheet switches to that sheet; one of a device on the
/// sheet that is shown, or on none, switches nowhere.
pub proof fn typing_switches_to_the_sheet_typed_on(
    ev: KeyEventView,
    map: Seq<EntryView>,
    active: int,
    held: Seq<Seq<char>>,
)
    ensures
        forall|i: int| #[trigger]
            is_first_entry(map, ev.devid, i) ==> press_state(ev, map, active, held).switch_to == (
            if map[i].sheet == active {
                None
            } else {
                Some(map[i].sheet)
            }),
        (forall|i: int| 0 <= i < map.len() ==> (#[trigger] map[i]).devid != ev.devid)
            ==> press_state(ev, map, active, held).switch_to is None,
{
    a_device_has_the_sheet_of_its_entry(map, ev.devid);
}

} // verus!
