//! The pressed-key glow and the live view around it: which caps light up for the keys
//! held, and the short decay that keeps a quick tap visible.

use crate::detect::DeviceEntry;
use crate::detect::EntryView;
use crate::layer::LiveState;
use crate::layer::LiveStateView;
use crate::monitor;
use crate::monitor::KeyAction;
use crate::monitor::KeyEvent;
use crate::monitor::KeyEventView;
use crate::order;
use crate::paths;
use crate::strings;
use crate::text;
use vstd::prelude::*;

verus! {

// ---------------------------------------------------------------------------
// Which caps light up
// ---------------------------------------------------------------------------

/// The views of a list of lists of strings.
pub open spec fn text_lists(v: Seq<Vec<String>>) -> Seq<Seq<Seq<char>>> {
    Seq::new(v.len(), |i: int| text::texts(v[i]@))
}

/// Everything in `a` is in `b`.
pub open spec fn all_in(a: Seq<Seq<char>>, b: Seq<Seq<char>>) -> bool {
    forall|i: int| 0 <= i < a.len() ==> b.contains(#[trigger] a[i])
}

/// A cap fires when every keysym it emits is held.
pub open spec fn fires(sets: Seq<Seq<Seq<char>>>, held: Seq<Seq<char>>, i: int) -> bool {
    sets[i].len() > 0 && all_in(sets[i], held)
}

/// Cap `j` takes the light from cap `i`: it fires, emits all that `i` does, and either
/// emits more or is an emphasized twin.
pub open spec fn outshines(
    sets: Seq<Seq<Seq<char>>>,
    emph: Seq<bool>,
    held: Seq<Seq<char>>,
    j: int,
    i: int,
) -> bool {
    &&& j != i
    &&& fires(sets, held, j)
    &&& all_in(sets[i], sets[j])
    &&& sets[i].len() < sets[j].len() || (sets[i].len() == sets[j].len() && emph[j] && !emph[i])
}

/// A cap glows when it fires and no other takes the light from it.
pub open spec fn glows(
    sets: Seq<Seq<Seq<char>>>,
    emph: Seq<bool>,
    held: Seq<Seq<char>>,
    i: int,
) -> bool {
    fires(sets, held, i) && !(exists|j: int|
        0 <= j < sets.len() && #[trigger] outshines(sets, emph, held, j, i))
}

/// Whether everything in `a` is in `b`.
fn is_subset(a: &Vec<String>, b: &Vec<String>) -> (r: bool)
    ensures
        r == all_in(text::texts(a@), text::texts(b@)),
{
    let ghost av = text::texts(a@);
    let ghost bv = text::texts(b@);
    let mut i: usize = 0;
    while i < a.len()
        invariant
            i <= a@.len(),
            av == text::texts(a@),
            bv == text::texts(b@),
            forall|k: int| 0 <= k < i ==> bv.contains(#[trigger] av[k]),
        decreases a.len() - i,
    {
        assert(av[i as int] == a@[i as int]@);
        if !monitor::holds(b, a[i].as_str()) {
            assert(!bv.contains(av[i as int]));
            return false;
        }
        i = i + 1;
    }
    true
}

/// Decide which caps glow, given the keysyms that each cap emits, whether it is an
/// emphasized remap, and the keysyms held. A firing cap loses to one that emits a strict
/// superset, or the same and is emphasized.
pub fn resolve_glow(sets: &Vec<Vec<String>>, emph: &Vec<bool>, pressed: &Vec<String>) -> (r: Vec<
    bool,
>)
    requires
        emph@.len() >= sets@.len(),
    ensures
        r@.len() == sets@.len(),
        forall|i: int|
            0 <= i < r@.len() ==> #[trigger] r@[i] == glows(
                text_lists(sets@),
                emph@,
                text::texts(pressed@),
                i,
            ),
{
    let ghost sv = text_lists(sets@);
    let ghost held = text::texts(pressed@);
    let mut fire: Vec<bool> = Vec::new();
    let mut i: usize = 0;
    while i < sets.len()
        invariant
            i <= sets@.len(),
            sv == text_lists(sets@),
            held == text::texts(pressed@),
            fire@.len() == i,
            forall|k: int| 0 <= k < i ==> #[trigger] fire@[k] == fires(sv, held, k),
        decreases sets.len() - i,
    {
        assert(sv[i as int] == text::texts(sets@[i as int]@));
        assert(sv[i as int].len() == sets@[i as int]@.len());
        let f = sets[i].len() > 0 && is_subset(&sets[i], pressed);
        fire.push(f);
        i = i + 1;
    }
    let mut out: Vec<bool> = Vec::new();
    let mut a: usize = 0;
    while a < sets.len()
        invariant
            a <= sets@.len(),
            emph@.len() >= sets@.len(),
            sv == text_lists(sets@),
            held == text::texts(pressed@),
            fire@.len() == sets@.len(),
            forall|k: int| 0 <= k < sets@.len() ==> #[trigger] fire@[k] == fires(sv, held, k),
            out@.len() == a,
            forall|k: int| 0 <= k < a ==> #[trigger] out@[k] == glows(sv, emph@, held, k),
        decreases sets.len() - a,
    {
        let mut beaten = false;
        let mut b: usize = 0;
        assert(sv[a as int].len() == sets@[a as int]@.len());
        while b < sets.len()
            invariant
                a < sets@.len(),
                b <= sets@.len(),
                emph@.len() >= sets@.len(),
                sv == text_lists(sets@),
                held == text::texts(pressed@),
                fire@.len() == sets@.len(),
                sv[a as int].len() == sets@[a as int]@.len(),
                forall|k: int| 0 <= k < sets@.len() ==> #[trigger] fire@[k] == fires(sv, held, k),
                beaten == (exists|j: int|
                    0 <= j < b && #[trigger] outshines(sv, emph@, held, j, a as int)),
            decreases sets.len() - b,
        {
            assert(sv[b as int].len() == sets@[b as int]@.len());
            let better = b != a && fire[b] && is_subset(&sets[a], &sets[b]) && (sets[a].len()
                < sets[b].len() || (sets[a].len() == sets[b].len() && emph[b] && !emph[a]));
            assert(better == outshines(sv, emph@, held, b as int, a as int));
            if better {
                beaten = true;
            }
            b = b + 1;
        }
        out.push(fire[a] && !beaten);
        a = a + 1;
    }
    out
}

/// The keysyms that a cap emits: the parts of its chord.
pub open spec fn emitted_of(key: Seq<char>) -> Seq<Seq<char>> {
    nonempty(text::split(key, '+'))
}

/// The pieces that are not empty.
pub open spec fn nonempty(pieces: Seq<Seq<char>>) -> Seq<Seq<char>>
    decreases pieces.len(),
{
    if pieces.len() == 0 {
        Seq::empty()
    } else {
        let before = nonempty(pieces.drop_last());
        if pieces.last().len() > 0 {
            before.push(pieces.last())
        } else {
            before
        }
    }
}

/// The keysyms that a cap emits.
pub fn emitted(key: &str) -> (r: Vec<String>)
    ensures
        text::texts(r@) == emitted_of(key@),
{
    let pieces = strings::split(key, '+');
    let ghost all = text::split(key@, '+');
    let mut r: Vec<String> = Vec::new();
    let mut i: usize = 0;
    assert(pieces@.len() == all.len());
    assert(text::texts(r@) =~= Seq::<Seq<char>>::empty());
    while i < pieces.len()
        invariant
            i <= pieces@.len(),
            text::texts(pieces@) == all,
            text::texts(r@) == nonempty(all.subrange(0, i as int)),
        decreases pieces.len() - i,
    {
        let ghost next = all.subrange(0, i + 1);
        assert(next.drop_last() =~= all.subrange(0, i as int));
        assert(next.last() == pieces@[i as int]@);
        if !pieces[i].as_str().is_empty() {
            let ghost before = text::texts(r@);
            r.push(strings::copy(pieces[i].as_str()));
            assert(text::texts(r@) =~= before.push(next.last()));
        }
        i = i + 1;
    }
    assert(all.subrange(0, i as int) =~= all);
    r
}

/// The caps that light up on a board, given the chord that each emits, whether it is
/// emphasized, and the keysyms held. None does while nothing is held.
pub fn stamp_glow(keys: &Vec<String>, emph: &Vec<bool>, pressed: &Vec<String>) -> (r: Vec<bool>)
    requires
        emph@.len() >= keys@.len(),
    ensures
        r@.len() == keys@.len(),
        forall|i: int|
            0 <= i < r@.len() ==> #[trigger] r@[i] == glows(
                Seq::new(keys@.len(), |k: int| emitted_of(keys@[k]@)),
                emph@,
                text::texts(pressed@),
                i,
            ),
{
    let ghost want = Seq::new(keys@.len(), |k: int| emitted_of(keys@[k]@));
    let mut sets: Vec<Vec<String>> = Vec::new();
    let mut i: usize = 0;
    while i < keys.len()
        invariant
            i <= keys@.len(),
            sets@.len() == i,
            forall|k: int|
                0 <= k < i ==> text::texts(#[trigger] sets@[k]@) == emitted_of(keys@[k]@),
        decreases keys.len() - i,
    {
        sets.push(emitted(keys[i].as_str()));
        i = i + 1;
    }
    assert(text_lists(sets@) =~= want);
    resolve_glow(&sets, emph, pressed)
}

/// The caps before `n` that fire have one among them that none of them takes the light
/// from.
proof fn some_cap_is_brightest(
    sets: Seq<Seq<Seq<char>>>,
    emph: Seq<bool>,
    held: Seq<Seq<char>>,
    n: int,
    i: int,
) -> (best: int)
    requires
        0 <= i < n <= sets.len(),
        fires(sets, held, i),
    ensures
        0 <= best < n,
        fires(sets, held, best),
        forall|j: int|
            0 <= j < n && #[trigger] fires(sets, held, j) ==> sets[j].len() < sets[best].len() || (
            sets[j].len() == sets[best].len() && (emph[j] ==> emph[best])),
    decreases n,
{
    if n == 1 {
        i
    } else {
        let last = n - 1;
        if exists|k: int| 0 <= k < last && #[trigger] fires(sets, held, k) {
            let k = choose|k: int| 0 <= k < last && #[trigger] fires(sets, held, k);
            let b = some_cap_is_brightest(sets, emph, held, last, k);
            if fires(sets, held, last) && (sets[last].len() > sets[b].len() || (sets[last].len()
                == sets[b].len() && emph[last] && !emph[b])) {
                last
            } else {
                b
            }
        } else {
            assert(i == last);
            i
        }
    }
}

/// What is pressed is always seen: where some cap fires, some cap glows.
pub proof fn a_firing_board_glows(
    sets: Seq<Seq<Seq<char>>>,
    emph: Seq<bool>,
    held: Seq<Seq<char>>,
    i: int,
)
    requires
        0 <= i < sets.len(),
        fires(sets, held, i),
    ensures
        exists|k: int| 0 <= k < sets.len() && #[trigger] glows(sets, emph, held, k),
{
    let b = some_cap_is_brightest(sets, emph, held, sets.len() as int, i);
    assert(glows(sets, emph, held, b)) by {
        assert forall|j: int| 0 <= j < sets.len() implies !#[trigger] outshines(
            sets,
            emph,
            held,
            j,
            b,
        ) by {
            if fires(sets, held, j) {
                assert(sets[j].len() <= sets[b].len());
            }
        }
    }
}

/// A cap that emits nothing never glows, and nothing glows while nothing is held.
pub proof fn nothing_glows_for_nothing(
    sets: Seq<Seq<Seq<char>>>,
    emph: Seq<bool>,
    held: Seq<Seq<char>>,
    i: int,
)
    requires
        0 <= i < sets.len(),
        sets[i].len() == 0 || held.len() == 0,
    ensures
        !glows(sets, emph, held, i),
{
    if sets[i].len() > 0 && fires(sets, held, i) {
        assert(held.contains(sets[i][0]));
    }
}

// ---------------------------------------------------------------------------
// The decay
// ---------------------------------------------------------------------------

/// How long a key stays lit at least after it went down, in nanoseconds.
pub const MIN_GLOW: u128 = 60_000_000;

/// A key and the time until which it stays lit.
#[derive(Debug)]
pub struct Lit {
    pub key: String,
    pub until: u128,
}

pub struct LitView {
    pub key: Seq<char>,
    pub until: nat,
}

impl View for Lit {
    type V = LitView;

    open spec fn view(&self) -> LitView {
        LitView { key: self.key@, until: self.until as nat }
    }
}

/// The keys held, and the keys still inside their decay.
#[derive(Debug)]
pub struct GlowState {
    pub held: Vec<String>,
    pub until: Vec<Lit>,
}

pub struct GlowView {
    pub held: Seq<Seq<char>>,
    pub until: Seq<LitView>,
}

impl View for GlowState {
    type V = GlowView;

    open spec fn view(&self) -> GlowView {
        GlowView { held: text::texts(self.held@), until: text::views(self.until@) }
    }
}

/// The decays that have not expired.
pub open spec fn unexpired(until: Seq<LitView>, now: nat) -> Seq<LitView>
    decreases until.len(),
{
    if until.len() == 0 {
        Seq::empty()
    } else {
        let before = unexpired(until.drop_last(), now);
        if until.last().until > now {
            before.push(until.last())
        } else {
            before
        }
    }
}

/// The held keys and those still in their decay, each once.
pub open spec fn lit_keys(held: Seq<Seq<char>>, until: Seq<LitView>) -> Seq<Seq<char>>
    decreases until.len(),
{
    if until.len() == 0 {
        held
    } else {
        let before = lit_keys(held, until.drop_last());
        if before.contains(until.last().key) {
            before
        } else {
            before.push(until.last().key)
        }
    }
}

/// The decays without that of `key`.
pub open spec fn without_decay(until: Seq<LitView>, key: Seq<char>) -> Seq<LitView>
    decreases until.len(),
{
    if until.len() == 0 {
        Seq::empty()
    } else {
        let before = without_decay(until.drop_last(), key);
        if until.last().key == key {
            before
        } else {
            before.push(until.last())
        }
    }
}

/// The decays with `key` lit until `t`, in place of what it had.
pub open spec fn with_decay(until: Seq<LitView>, key: Seq<char>, t: nat) -> Seq<LitView> {
    without_decay(until, key).push(LitView { key, until: t })
}

impl GlowState {
    /// Nothing lit.
    pub fn new() -> (r: GlowState)
        ensures
            r@ == (GlowView { held: Seq::empty(), until: Seq::empty() }),
    {
        let r = GlowState { held: Vec::new(), until: Vec::new() };
        assert(r@.held =~= Seq::<Seq<char>>::empty());
        assert(r@.until =~= Seq::<LitView>::empty());
        r
    }

    /// The keys to light at `now`: everything held, and what is still inside its decay.
    /// Expired decays are dropped.
    pub fn glow_set(&mut self, now: u128) -> (r: Vec<String>)
        ensures
            final(self)@ == (GlowView {
                held: old(self)@.held,
                until: unexpired(old(self)@.until, now as nat),
            }),
            text::texts(r@) == lit_keys(
                old(self)@.held,
                unexpired(old(self)@.until, now as nat),
            ),
    {
        let ghost start = self@;
        let mut alive: Vec<Lit> = Vec::new();
        let mut i: usize = 0;
        assert(text::views(alive@) =~= Seq::<LitView>::empty());
        while i < self.until.len()
            invariant
                i <= self.until@.len(),
                start == self@,
                text::views(alive@) == unexpired(start.until.subrange(0, i as int), now as nat),
            decreases self.until.len() - i,
        {
            let ghost next = start.until.subrange(0, i + 1);
            assert(next.drop_last() =~= start.until.subrange(0, i as int));
            assert(next.last() == self.until@[i as int]@);
            if self.until[i].until > now {
                let ghost before = text::views(alive@);
                alive.push(
                    Lit {
                        key: strings::copy(self.until[i].key.as_str()),
                        until: self.until[i].until,
                    },
                );
                assert(text::views(alive@) =~= before.push(next.last()));
            }
            i = i + 1;
        }
        assert(start.until.subrange(0, i as int) =~= start.until);
        let ghost left = text::views(alive@);
        let mut out = strings::copy_all(&self.held);
        let mut k: usize = 0;
        while k < alive.len()
            invariant
                k <= alive@.len(),
                left == text::views(alive@),
                text::texts(out@) == lit_keys(start.held, left.subrange(0, k as int)),
            decreases alive.len() - k,
        {
            let ghost next = left.subrange(0, k + 1);
            assert(next.drop_last() =~= left.subrange(0, k as int));
            assert(next.last() == alive@[k as int]@);
            if !monitor::holds(&out, alive[k].key.as_str()) {
                let ghost before = text::texts(out@);
                out.push(strings::copy(alive[k].key.as_str()));
                assert(text::texts(out@) =~= before.push(next.last().key));
            }
            k = k + 1;
        }
        assert(left.subrange(0, k as int) =~= left);
        self.until = alive;
        out
    }

    /// Light `key` until `t`.
    fn light(&mut self, key: &str, t: u128)
        ensures
            final(self)@ == (GlowView {
                held: old(self)@.held,
                until: with_decay(old(self)@.until, key@, t as nat),
            }),
    {
        let ghost start = self@;
        let mut rest: Vec<Lit> = Vec::new();
        let mut i: usize = 0;
        assert(text::views(rest@) =~= Seq::<LitView>::empty());
        while i < self.until.len()
            invariant
                i <= self.until@.len(),
                start == self@,
                text::views(rest@) == without_decay(start.until.subrange(0, i as int), key@),
            decreases self.until.len() - i,
        {
            let ghost next = start.until.subrange(0, i + 1);
            assert(next.drop_last() =~= start.until.subrange(0, i as int));
            assert(next.last() == self.until@[i as int]@);
            if !strings::same(self.until[i].key.as_str(), key) {
                let ghost before = text::views(rest@);
                rest.push(
                    Lit {
                        key: strings::copy(self.until[i].key.as_str()),
                        until: self.until[i].until,
                    },
                );
                assert(text::views(rest@) =~= before.push(next.last()));
            }
            i = i + 1;
        }
        assert(start.until.subrange(0, i as int) =~= start.until);
        let ghost before = text::views(rest@);
        let one = Lit { key: strings::copy(key), until: t };
        let ghost onev = one@;
        rest.push(one);
        assert(text::views(rest@) =~= before.push(onev));
        self.until = rest;
    }
}

/// The window's side of a key event.
#[derive(Debug, Clone, Copy, PartialEq, Eq, Structural)]
pub struct KeyContext {
    pub edit_mode: bool,
    /// The next key pressed becomes a binding.
    pub capture_armed: bool,
    /// The sheet that is shown.
    pub active: i32,
    /// How many sheets there are.
    pub sheets: i32,
}

/// What a key event does.
#[derive(Debug)]
pub enum KeyOutcome {
    /// Nothing: it was swallowed.
    Swallowed,
    /// The key becomes the binding.
    Captured(String),
    /// The view may switch, and these keys are lit.
    Lit { switch_to: Option<i32>, pressed: Vec<String> },
}

pub enum KeyOutcomeView {
    Swallowed,
    Captured(Seq<char>),
    Lit { switch_to: Option<int>, pressed: Seq<Seq<char>> },
}

impl View for KeyOutcome {
    type V = KeyOutcomeView;

    open spec fn view(&self) -> KeyOutcomeView {
        match *self {
            KeyOutcome::Swallowed => KeyOutcomeView::Swallowed,
            KeyOutcome::Captured(k) => KeyOutcomeView::Captured(k@),
            KeyOutcome::Lit { switch_to, pressed } => KeyOutcomeView::Lit {
                switch_to: match switch_to {
                    Some(i) => Some(i as int),
                    None => None,
                },
                pressed: text::texts(pressed@),
            },
        }
    }
}

/// What a key event does to the glow and the view. An armed capture eats a key-down as
/// the new binding, and everything else until it is disarmed; editing never lets a
/// keypress switch the view.
pub open spec fn key_handled(
    g: GlowView,
    ev: KeyEventView,
    map: Seq<EntryView>,
    c: KeyContext,
    now: nat,
) -> (GlowView, KeyOutcomeView) {
    if c.edit_mode && c.capture_armed {
        (
            g,
            if ev.action == KeyAction::Down {
                KeyOutcomeView::Captured(ev.key)
            } else {
                KeyOutcomeView::Swallowed
            },
        )
    } else {
        let p = monitor::press_state(ev, map, c.active as int, g.held);
        let switching = p.switch_to is Some && !c.edit_mode;
        let kept = if switching {
            Seq::empty()
        } else {
            g.until
        };
        let decay = if ev.action == KeyAction::Down {
            with_decay(kept, ev.key, now + MIN_GLOW as nat)
        } else {
            kept
        };
        let alive = unexpired(decay, now);
        (
            GlowView { held: p.pressed, until: alive },
            KeyOutcomeView::Lit {
                switch_to: if switching && 0 <= p.switch_to->0 < c.sheets {
                    p.switch_to
                } else {
                    None
                },
                pressed: lit_keys(p.pressed, alive),
            },
        )
    }
}

/// Take in one key event at `now`: follow the last-pressed keyboard, update the held keys
/// and the decay, and say what is lit.
pub fn handle_key_event(
    g: GlowState,
    ev: &KeyEvent,
    map: &Vec<DeviceEntry>,
    c: KeyContext,
    now: u128,
) -> (r: (GlowState, KeyOutcome))
    requires
        now + MIN_GLOW <= u128::MAX,
    ensures
        (r.0@, r.1@) == key_handled(g@, ev@, text::views(map@), c, now as nat),
{
    if c.edit_mode && c.capture_armed {
        return match ev.action {
            KeyAction::Down => (g, KeyOutcome::Captured(strings::copy(ev.key.as_str()))),
            _ => (g, KeyOutcome::Swallowed),
        };
    }
    let p = monitor::next_press_state(ev, map, c.active, &g.held);
    let mut until = g.until;
    let mut switch_to: Option<i32> = None;
    if let Some(idx) = p.switch_to {
        if !c.edit_mode {
            until = Vec::new();
            assert(text::views(until@) =~= Seq::<LitView>::empty());
            if 0 <= idx && idx < c.sheets {
                switch_to = Some(idx);
            }
        }
    }
    let mut next = GlowState { held: p.pressed, until };
    match ev.action {
        KeyAction::Down => next.light(ev.key.as_str(), now + MIN_GLOW),
        _ => {},
    }
    let pressed = next.glow_set(now);
    (next, KeyOutcome::Lit { switch_to, pressed })
}

proof fn lit_keys_hold(held: Seq<Seq<char>>, until: Seq<LitView>, key: Seq<char>)
    ensures
        held.contains(key) ==> lit_keys(held, until).contains(key),
        (exists|i: int| 0 <= i < until.len() && (#[trigger] until[i]).key == key) ==> lit_keys(
            held,
            until,
        ).contains(key),
    decreases until.len(),
{
    if until.len() > 0 {
        let t = until.drop_last();
        lit_keys_hold(held, t, key);
        let before = lit_keys(held, t);
        let now = lit_keys(held, until);
        if before.contains(key) {
            let i = choose|i: int| 0 <= i < before.len() && before[i] == key;
            assert(now[i] == key);
        }
        if exists|i: int| 0 <= i < until.len() && (#[trigger] until[i]).key == key {
            let i = choose|i: int| 0 <= i < until.len() && (#[trigger] until[i]).key == key;
            if i < t.len() {
                assert(t[i].key == key);
            } else if !before.contains(key) {
                assert(now[now.len() - 1] == key);
            }
        }
    }
}

/// A quick tap is seen: a key that goes down is lit by that very event, and as long as no
/// other event or the clock intervenes it stays in its decay after it goes up.
pub proof fn a_tap_stays_lit(
    g: GlowView,
    ev: KeyEventView,
    map: Seq<EntryView>,
    c: KeyContext,
    now: nat,
)
    requires
        ev.action == KeyAction::Down,
        !(c.edit_mode && c.capture_armed),
    ensures
        key_handled(g, ev, map, c, now).1 is Lit,
        key_handled(g, ev, map, c, now).1->pressed.contains(ev.key),
        forall|later: nat|
            later < now + MIN_GLOW ==> #[trigger] lit_keys(
                Seq::empty(),
                unexpired(key_handled(g, ev, map, c, now).0.until, later),
            ).contains(ev.key),
{
    let out = key_handled(g, ev, map, c, now);
    let p = monitor::press_state(ev, map, c.active as int, g.held);
    let kept = if p.switch_to is Some && !c.edit_mode {
        Seq::empty()
    } else {
        g.until
    };
    let one = LitView { key: ev.key, until: now + MIN_GLOW as nat };
    let decay = without_decay(kept, ev.key).push(one);
    assert(decay.drop_last() =~= without_decay(kept, ev.key));
    let alive = unexpired(decay, now);
    assert(alive[alive.len() - 1] == one);
    assert(alive.last() == one);
    lit_keys_hold(p.pressed, alive, ev.key);
    assert forall|later: nat| later < now + MIN_GLOW implies #[trigger] lit_keys(
        Seq::empty(),
        unexpired(alive, later),
    ).contains(ev.key) by {
        let left = unexpired(alive, later);
        assert(left[left.len() - 1] == one);
        lit_keys_hold(Seq::empty(), left, ev.key);
    }
}

/// The view follows the typing: outside edit mode a key event of a device whose sheet is
/// another one, and exists, switches to it; one of the sheet that is shown, of none, or of a
/// sheet that does not exist, switches nowhere. In edit mode nothing does.
pub proof fn the_view_follows_the_typing(
    g: GlowView,
    ev: KeyEventView,
    map: Seq<EntryView>,
    c: KeyContext,
    now: nat,
)
    ensures
        ({
            let out = key_handled(g, ev, map, c, now).1;
            &&& !c.edit_mode ==> out is Lit
            &&& !c.edit_mode ==> forall|i: int| #[trigger]
                monitor::is_first_entry(map, ev.devid, i) ==> out->switch_to == (if map[i].sheet
                    != c.active && 0 <= map[i].sheet < c.sheets {
                    Some(map[i].sheet)
                } else {
                    None
                })
            &&& !c.edit_mode && (forall|i: int|
                0 <= i < map.len() ==> (#[trigger] map[i]).devid != ev.devid)
                ==> out->switch_to is None
            &&& c.edit_mode && out is Lit ==> out->switch_to is None
        }),
{
    monitor::typing_switches_to_the_sheet_typed_on(ev, map, c.active as int, g.held);
}

/// An armed capture takes the next key that goes down, and nothing else happens while it is
/// armed; without one in edit mode, no key is captured and every event shows.
pub proof fn a_capture_takes_one_key_down(
    g: GlowView,
    ev: KeyEventView,
    map: Seq<EntryView>,
    c: KeyContext,
    now: nat,
)
    ensures
        ({
            let (next, out) = key_handled(g, ev, map, c, now);
            &&& c.edit_mode && c.capture_armed && ev.action == KeyAction::Down ==> out
                == KeyOutcomeView::Captured(ev.key)
            &&& c.edit_mode && c.capture_armed && ev.action != KeyAction::Down ==> out is Swallowed
            &&& c.edit_mode && c.capture_armed ==> next == g
            &&& !(c.edit_mode && c.capture_armed) ==> out is Lit
        }),
{
}

proof fn unexpired_are_later(until: Seq<LitView>, now: nat, x: LitView)
    ensures
        unexpired(until, now).contains(x) <==> until.contains(x) && x.until > now,
    decreases until.len(),
{
    if until.len() > 0 {
        let t = until.drop_last();
        unexpired_are_later(t, now, x);
        let before = unexpired(t, now);
        let all = unexpired(until, now);
        assert(until =~= t.push(until.last()));
        if t.contains(x) {
            let i = choose|i: int| 0 <= i < t.len() && t[i] == x;
            assert(until[i] == x);
        }
        if until.contains(x) {
            let i = choose|i: int| 0 <= i < until.len() && until[i] == x;
            if i < t.len() {
                assert(t[i] == x);
            }
        }
        if before.contains(x) {
            let i = choose|i: int| 0 <= i < before.len() && before[i] == x;
            assert(all[i] == x);
        }
        if until.last().until > now {
            assert(all[all.len() - 1] == until.last());
            if all.contains(x) {
                let i = choose|i: int| 0 <= i < all.len() && all[i] == x;
                if i < before.len() {
                    assert(before[i] == x);
                } else {
                    assert(until[until.len() - 1] == x);
                }
            }
        }
        if x == until.last() {
            assert(until[until.len() - 1] == x);
        }
    }
}

proof fn lit_keys_are_sourced(held: Seq<Seq<char>>, until: Seq<LitView>, key: Seq<char>)
    ensures
        lit_keys(held, until).contains(key) ==> held.contains(key) || exists|i: int|
            0 <= i < until.len() && (#[trigger] until[i]).key == key,
    decreases until.len(),
{
    if until.len() > 0 {
        let t = until.drop_last();
        lit_keys_are_sourced(held, t, key);
        let before = lit_keys(held, t);
        let all = lit_keys(held, until);
        if all.contains(key) {
            if before.contains(key) {
                if !held.contains(key) {
                    let i = choose|i: int| 0 <= i < t.len() && (#[trigger] t[i]).key == key;
                    assert(until[i].key == key);
                }
            } else {
                let i = choose|i: int| 0 <= i < all.len() && all[i] == key;
                if i < before.len() {
                    assert(before[i] == key);
                }
                assert(until[until.len() - 1].key == key);
            }
        }
    }
}

/// What is lit is what is held and what is still in its decay, and nothing else: a decay
/// counts up to its time and no longer.
pub proof fn lit_is_held_or_decaying(held: Seq<Seq<char>>, until: Seq<LitView>, now: nat, key: Seq<char>)
    ensures
        lit_keys(held, unexpired(until, now)).contains(key) <==> held.contains(key) || exists|i: int|
            0 <= i < until.len() && (#[trigger] until[i]).key == key && until[i].until > now,
{
    let alive = unexpired(until, now);
    lit_keys_hold(held, alive, key);
    lit_keys_are_sourced(held, alive, key);
    if exists|i: int| 0 <= i < alive.len() && (#[trigger] alive[i]).key == key {
        let i = choose|i: int| 0 <= i < alive.len() && (#[trigger] alive[i]).key == key;
        unexpired_are_later(until, now, alive[i]);
        assert(alive.contains(alive[i]));
        let j = choose|j: int| 0 <= j < until.len() && until[j] == alive[i];
        assert(until[j].key == key && until[j].until > now);
    }
    if exists|i: int| 0 <= i < until.len() && (#[trigger] until[i]).key == key && until[i].until
        > now {
        let i = choose|i: int|
            0 <= i < until.len() && (#[trigger] until[i]).key == key && until[i].until > now;
        unexpired_are_later(until, now, until[i]);
        assert(until.contains(until[i]));
        let j = choose|j: int| 0 <= j < alive.len() && alive[j] == until[i];
        assert(alive[j].key == key);
    }
}

/// The lit keys in order, where they are not those that are shown, up to the order.
pub open spec fn repainted(glow: Seq<Seq<char>>, shown: Seq<Seq<char>>) -> Option<Seq<Seq<char>>> {
    if order::sorted(glow) == order::sorted(shown) {
        None
    } else {
        Some(order::sorted(glow))
    }
}

/// Whether the lit keys changed, up to their order; if so, they are given in order.
pub fn glow_changed(glow: &Vec<String>, shown: &Vec<String>) -> (r: Option<Vec<String>>)
    ensures
        (match r {
            Some(v) => Some(text::texts(v@)),
            None => None,
        }) == repainted(text::texts(glow@), text::texts(shown@)),
{
    let a = order::sort(glow);
    let b = order::sort(shown);
    if paths::same_list(&a, &b) {
        None
    } else {
        Some(a)
    }
}

// ---------------------------------------------------------------------------
// The live view
// ---------------------------------------------------------------------------

/// What the window shows of the live streams.
#[derive(Debug)]
pub struct LiveUi {
    pub live_connected: bool,
    pub keys_connected: bool,
    pub stack: Vec<String>,
}

pub struct LiveUiView {
    pub live_connected: bool,
    pub keys_connected: bool,
    pub stack: Seq<Seq<char>>,
}

impl View for LiveUi {
    type V = LiveUiView;

    open spec fn view(&self) -> LiveUiView {
        LiveUiView {
            live_connected: self.live_connected,
            keys_connected: self.keys_connected,
            stack: text::texts(self.stack@),
        }
    }
}

/// What is shown after the broker's stream opened or dropped.
pub open spec fn broker_switched(ui: LiveUiView, connected: bool) -> LiveUiView {
    if connected {
        LiveUiView { live_connected: true, ..ui }
    } else {
        LiveUiView { live_connected: false, keys_connected: false, stack: Seq::empty() }
    }
}

/// What is shown after an event of the broker.
pub open spec fn broker_heard(
    ui: LiveUiView,
    layers: Option<Seq<Seq<char>>>,
    is_key: bool,
) -> LiveUiView {
    LiveUiView {
        live_connected: ui.live_connected || layers is Some,
        keys_connected: ui.keys_connected || is_key,
        stack: match layers {
            Some(v) => v,
            None => ui.stack,
        },
    }
}

/// What is shown after an update of keyd's own layer stream.
pub open spec fn layers_heard(ui: LiveUiView, state: LiveStateView) -> LiveUiView {
    LiveUiView {
        live_connected: state.connected,
        keys_connected: ui.keys_connected,
        stack: state.active,
    }
}

/// What is shown after keyd's own keypress stream opened or dropped.
pub open spec fn keys_switched(ui: LiveUiView, connected: bool) -> LiveUiView {
    LiveUiView { keys_connected: connected, ..ui }
}

/// What is shown live is what was last heard: the layers of the last event about them, and
/// none once a stream is gone. The view is live exactly while the layers are heard, and the
/// keys count as heard from the first keypress until their stream is gone.
pub proof fn the_live_view_shows_what_was_heard(
    ui: LiveUiView,
    connected: bool,
    layers: Option<Seq<Seq<char>>>,
    is_key: bool,
    state: LiveStateView,
)
    ensures
        broker_switched(ui, connected).live_connected == connected,
        connected ==> broker_switched(ui, connected).stack == ui.stack && broker_switched(
            ui,
            connected,
        ).keys_connected == ui.keys_connected,
        !connected ==> broker_switched(ui, connected).stack.len() == 0 && !broker_switched(
            ui,
            connected,
        ).keys_connected,
        layers is Some ==> broker_heard(ui, layers, is_key).stack == layers->0 && broker_heard(
            ui,
            layers,
            is_key,
        ).live_connected,
        layers is None ==> broker_heard(ui, layers, is_key).stack == ui.stack && broker_heard(
            ui,
            layers,
            is_key,
        ).live_connected == ui.live_connected,
        broker_heard(ui, layers, is_key).keys_connected <==> ui.keys_connected || is_key,
        layers_heard(ui, state).stack == state.active,
        layers_heard(ui, state).live_connected == state.connected,
        layers_heard(ui, state).keys_connected == ui.keys_connected,
        keys_switched(ui, connected).keys_connected == connected,
        keys_switched(ui, connected).live_connected == ui.live_connected,
        keys_switched(ui, connected).stack == ui.stack,
{
}

/// The broker's stream opened or dropped. Dropping it forgets the layers and the glow:
/// the second part says so, and that the board is to be drawn again.
pub fn helper_connected(ui: LiveUi, connected: bool) -> (r: (LiveUi, bool))
    ensures
        r.0@ == broker_switched(ui@, connected),
        r.1 == !connected,
{
    if connected {
        (
            LiveUi {
                live_connected: true,
                keys_connected: ui.keys_connected,
                stack: ui.stack,
            },
            false,
        )
    } else {
        let ui = LiveUi { live_connected: false, keys_connected: false, stack: Vec::new() };
        assert(ui@.stack =~= Seq::<Seq<char>>::empty());
        (ui, true)
    }
}

/// An event of the broker: the layers that are active now, where it was one about layers,
/// and whether it was a keypress. The second part says whether the board is to be drawn
/// again for the layers.
pub fn helper_event(ui: LiveUi, layers: Option<Vec<String>>, is_key: bool) -> (r: (LiveUi, bool))
    ensures
        r.0@ == broker_heard(
            ui@,
            match layers {
                Some(v) => Some(text::texts(v@)),
                None => None,
            },
            is_key,
        ),
        r.1 == (layers is Some),
{
    let keys_connected = ui.keys_connected || is_key;
    match layers {
        Some(stack) => (LiveUi { live_connected: true, keys_connected, stack }, true),
        None => (
            LiveUi { live_connected: ui.live_connected, keys_connected, stack: ui.stack },
            false,
        ),
    }
}

/// An update of keyd's own layer stream.
pub fn listen_update(ui: LiveUi, state: LiveState) -> (r: LiveUi)
    ensures
        r@ == layers_heard(ui@, state@),
{
    LiveUi {
        live_connected: state.connected,
        keys_connected: ui.keys_connected,
        stack: state.active,
    }
}

/// keyd's own keypress stream opened or dropped. Dropping it forgets the glow, as the
/// second part says.
pub fn monitor_connected(ui: LiveUi, connected: bool) -> (r: (LiveUi, bool))
    ensures
        r.0@ == keys_switched(ui@, connected),
        r.1 == !connected,
{
    (
        LiveUi {
            live_connected: ui.live_connected,
            keys_connected: connected,
            stack: ui.stack,
        },
        !connected,
    )
}

// ---------------------------------------------------------------------------
// The demo
// ---------------------------------------------------------------------------

/// A board as far as the demo goes.
#[derive(Debug)]
pub struct BoardTag {
    pub is_base: bool,
    pub title: String,
}

pub struct BoardTagView {
    pub is_base: bool,
    pub title: Seq<char>,
}

impl View for BoardTag {
    type V = BoardTagView;

    open spec fn view(&self) -> BoardTagView {
        BoardTagView { is_base: self.is_base, title: self.title@ }
    }
}

/// The titles of the layer boards, each once.
pub open spec fn layer_titles(boards: Seq<BoardTagView>) -> Seq<Seq<char>>
    decreases boards.len(),
{
    if boards.len() == 0 {
        Seq::empty()
    } else {
        let before = layer_titles(boards.drop_last());
        if boards.last().is_base || before.contains(boards.last().title) {
            before
        } else {
            before.push(boards.last().title)
        }
    }
}

/// The titles of the layer boards, each once.
pub fn demo_layers(boards: &Vec<BoardTag>) -> (r: Vec<String>)
    ensures
        text::texts(r@) == layer_titles(text::views(boards@)),
{
    let ghost all = text::views(boards@);
    let mut r: Vec<String> = Vec::new();
    let mut i: usize = 0;
    assert(text::texts(r@) =~= Seq::<Seq<char>>::empty());
    while i < boards.len()
        invariant
            i <= boards@.len(),
            all == text::views(boards@),
            text::texts(r@) == layer_titles(all.subrange(0, i as int)),
        decreases boards.len() - i,
    {
        let ghost next = all.subrange(0, i + 1);
        assert(next.drop_last() =~= all.subrange(0, i as int));
        assert(next.last() == boards@[i as int]@);
        if !boards[i].is_base && !monitor::holds(&r, boards[i].title.as_str()) {
            let ghost before = text::texts(r@);
            r.push(strings::copy(boards[i].title.as_str()));
            assert(text::texts(r@) =~= before.push(next.last().title));
        }
        i = i + 1;
    }
    assert(all.subrange(0, i as int) =~= all);
    r
}

/// The keys that the demo sweeps over.
pub open spec fn demo_keys() -> Seq<Seq<char>> {
    seq!["a"@, "s"@, "d"@, "f"@, "g"@, "h"@, "j"@, "k"@, "l"@, "space"@]
}

/// The stack and the key of step `i` of the demo: the key sweeps over the row, and each
/// sweep shows the base and then the next of the layers.
pub open spec fn demo_at(layers: Seq<Seq<char>>, i: nat) -> (Option<Seq<char>>, Seq<char>) {
    let at = (i as int / 10) % (layers.len() + 1) as int;
    (
        if at == 0 {
            None
        } else {
            Some(layers[at - 1])
        },
        demo_keys()[i as int % 10],
    )
}

/// The stack and the key of step `i` of the demo.
pub fn demo_step(layers: &Vec<String>, i: usize) -> (r: (Option<String>, String))
    requires
        layers@.len() < usize::MAX,
    ensures
        (text::opt(r.0), r.1@) == demo_at(text::texts(layers@), i as nat),
{
    let k: usize = i % 10;
    let key = if k == 0 {
        "a"
    } else if k == 1 {
        "s"
    } else if k == 2 {
        "d"
    } else if k == 3 {
        "f"
    } else if k == 4 {
        "g"
    } else if k == 5 {
        "h"
    } else if k == 6 {
        "j"
    } else if k == 7 {
        "k"
    } else if k == 8 {
        "l"
    } else {
        "space"
    };
    let count: usize = layers.len() + 1;
    let at: usize = (i / 10) % count;
    let stack = if at == 0 {
        None
    } else {
        Some(strings::copy(layers[at - 1].as_str()))
    };
    (stack, strings::copy(key))
}

/// A cap glows only for keys that are held, all of those that it emits, and only where no
/// other cap explains the keys better: one that fires and emits all that it does and more,
/// or the same as an emphasized remap. A cap that fires and that no other explains better
/// does glow.
pub proof fn the_best_explanation_glows(
    sets: Seq<Seq<Seq<char>>>,
    emph: Seq<bool>,
    held: Seq<Seq<char>>,
    i: int,
    j: int,
)
    requires
        0 <= i < sets.len(),
        0 <= j < sets.len(),
        i != j,
    ensures
        glows(sets, emph, held, i) ==> sets[i].len() > 0 && forall|k: int|
            0 <= k < sets[i].len() ==> held.contains(#[trigger] sets[i][k]),
        ({
            let fired = sets[j].len() > 0 && forall|k: int|
                0 <= k < sets[j].len() ==> held.contains(#[trigger] sets[j][k]);
            let covers = forall|k: int|
                0 <= k < sets[i].len() ==> sets[j].contains(#[trigger] sets[i][k]);
            &&& fired && covers && sets[j].len() > sets[i].len() ==> !glows(sets, emph, held, i)
            &&& fired && covers && sets[j].len() == sets[i].len() && emph[j] && !emph[i] ==> !glows(
                sets,
                emph,
                held,
                i,
            )
        }),
        sets[i].len() > 0 && (forall|k: int|
            0 <= k < sets[i].len() ==> held.contains(#[trigger] sets[i][k])) && (forall|m: int|
            0 <= m < sets.len() && m != i ==> (#[trigger] sets[m]).len() < sets[i].len() || !all_in(
                sets[i],
                sets[m],
            ) || (sets[m].len() == sets[i].len() && (!emph[m] || emph[i]))) ==> glows(
            sets,
            emph,
            held,
            i,
        ),
{
    let fired = sets[j].len() > 0 && forall|k: int|
        0 <= k < sets[j].len() ==> held.contains(#[trigger] sets[j][k]);
    let covers = forall|k: int|
        0 <= k < sets[i].len() ==> sets[j].contains(#[trigger] sets[i][k]);
    if fired && covers && (sets[j].len() > sets[i].len() || (sets[j].len() == sets[i].len()
        && emph[j] && !emph[i])) {
        assert(outshines(sets, emph, held, j, i));
    }
}

proof fn pieces_hold(pieces: Seq<Seq<char>>, x: Seq<char>)
    ensures
        nonempty(pieces).contains(x) <==> pieces.contains(x) && x.len() > 0,
    decreases pieces.len(),
{
    if pieces.len() > 0 {
        let t = pieces.drop_last();
        let before = nonempty(t);
        let all = nonempty(pieces);
        pieces_hold(t, x);
        assert(pieces[pieces.len() - 1] == pieces.last());
        if t.contains(x) {
            let i = choose|i: int| 0 <= i < t.len() && t[i] == x;
            assert(pieces[i] == x);
        }
        if pieces.contains(x) {
            let i = choose|i: int| 0 <= i < pieces.len() && pieces[i] == x;
            if i < t.len() {
                assert(t[i] == x);
            }
        }
        if before.contains(x) {
            let i = choose|i: int| 0 <= i < before.len() && before[i] == x;
            assert(all[i] == x);
        }
        if pieces.last().len() > 0 {
            assert(all[all.len() - 1] == pieces.last());
        }
        if all.contains(x) {
            let i = choose|i: int| 0 <= i < all.len() && all[i] == x;
            if i < before.len() {
                assert(before[i] == x);
            }
        }
    }
}

/// A cap emits the keys of its chord: those that stand between the plus signs, and nothing
/// else; a cap of one key emits that key.
pub proof fn a_cap_emits_the_keys_of_its_chord(key: Seq<char>, x: Seq<char>)
    ensures
        emitted_of(key).contains(x) <==> text::split(key, '+').contains(x) && x.len() > 0,
        key.len() > 0 && !key.contains('+') ==> emitted_of(key) == seq![key],
{
    pieces_hold(text::split(key, '+'), x);
    if key.len() > 0 && !key.contains('+') {
        text::split_without_separator(key, '+');
        reveal_with_fuel(nonempty, 2);
        assert(nonempty(seq![key]) =~= seq![key]);
    }
}

proof fn other_decays_stay(until: Seq<LitView>, key: Seq<char>, x: LitView)
    ensures
        without_decay(until, key).contains(x) <==> until.contains(x) && x.key != key,
    decreases until.len(),
{
    if until.len() > 0 {
        let t = until.drop_last();
        let before = without_decay(t, key);
        let all = without_decay(until, key);
        other_decays_stay(t, key, x);
        assert(until[until.len() - 1] == until.last());
        if t.contains(x) {
            let i = choose|i: int| 0 <= i < t.len() && t[i] == x;
            assert(until[i] == x);
        }
        if until.contains(x) {
            let i = choose|i: int| 0 <= i < until.len() && until[i] == x;
            if i < t.len() {
                assert(t[i] == x);
            }
        }
        if before.contains(x) {
            let i = choose|i: int| 0 <= i < before.len() && before[i] == x;
            assert(all[i] == x);
        }
        if until.last().key != key {
            assert(all[all.len() - 1] == until.last());
        }
        if all.contains(x) {
            let i = choose|i: int| 0 <= i < all.len() && all[i] == x;
            if i < before.len() {
                assert(before[i] == x);
            }
        }
    }
}

/// A decay is left alone by the events of other keys: it stays until its time as long as the
/// view does not switch, and a switch of the view ends all of them but that of the key that
/// went down.
pub proof fn a_decay_outlasts_other_events(
    g: GlowView,
    ev: KeyEventView,
    map: Seq<EntryView>,
    c: KeyContext,
    now: nat,
    x: LitView,
)
    requires
        x.key != ev.key,
        !(c.edit_mode && c.capture_armed),
    ensures
        ({
            let (next, out) = key_handled(g, ev, map, c, now);
            &&& c.edit_mode ==> (next.until.contains(x) <==> g.until.contains(x) && x.until > now)
            &&& (forall|i: int| 0 <= i < map.len() ==> (#[trigger] map[i]).devid != ev.devid) ==> (
            next.until.contains(x) <==> g.until.contains(x) && x.until > now)
            &&& out->switch_to is Some ==> !next.until.contains(x)
        }),
{
    monitor::typing_switches_to_the_sheet_typed_on(ev, map, c.active as int, g.held);
    let p = monitor::press_state(ev, map, c.active as int, g.held);
    let kept = if p.switch_to is Some && !c.edit_mode {
        Seq::empty()
    } else {
        g.until
    };
    let one = LitView { key: ev.key, until: now + MIN_GLOW as nat };
    let decay = if ev.action == KeyAction::Down {
        with_decay(kept, ev.key, now + MIN_GLOW as nat)
    } else {
        kept
    };
    unexpired_are_later(decay, now, x);
    other_decays_stay(kept, ev.key, x);
    if ev.action == KeyAction::Down {
        let w = without_decay(kept, ev.key);
        assert(decay =~= w.push(one));
        if w.contains(x) {
            let i = choose|i: int| 0 <= i < w.len() && w[i] == x;
            assert(decay[i] == x);
        }
        if decay.contains(x) {
            let i = choose|i: int| 0 <= i < decay.len() && decay[i] == x;
            if i < w.len() {
                assert(w[i] == x);
            }
        }
    }
}

/// The keys held follow the keyboard: a key that went down or repeats is lit, and one that
/// went up is not held any more.
pub proof fn the_held_keys_are_followed(
    g: GlowView,
    ev: KeyEventView,
    map: Seq<EntryView>,
    c: KeyContext,
    now: nat,
)
    requires
        !(c.edit_mode && c.capture_armed),
        monitor::each_once(g.held),
    ensures
        ({
            let (next, out) = key_handled(g, ev, map, c, now);
            &&& next.held.contains(ev.key) <==> ev.action != KeyAction::Up
            &&& monitor::each_once(next.held)
            &&& forall|k: Seq<char>| #[trigger] next.held.contains(k) ==> out->pressed.contains(k)
        }),
{
    monitor::held_keys_stay_a_set(ev, map, c.active as int, g.held);
    let next = key_handled(g, ev, map, c, now).0;
    assert forall|k: Seq<char>| #[trigger] next.held.contains(k) implies key_handled(
        g,
        ev,
        map,
        c,
        now,
    ).1->pressed.contains(k) by {
        lit_keys_hold(next.held, next.until, k);
    }
}

/// What is lit is painted again exactly where it changed: a key more or less, or another one,
/// is a change, and what is painted is all that is lit and nothing else. The same keys are
/// none.
pub proof fn a_change_of_the_lit_keys_is_painted(
    glow: Seq<Seq<char>>,
    shown: Seq<Seq<char>>,
    key: Seq<char>,
)
    ensures
        repainted(glow, glow) is None,
        glow.contains(key) != shown.contains(key) ==> repainted(glow, shown) is Some,
        glow.len() != shown.len() ==> repainted(glow, shown) is Some,
        repainted(glow, shown) is Some ==> (repainted(glow, shown)->0.contains(key)
            <==> glow.contains(key)) && repainted(glow, shown)->0.len() == glow.len(),
{
    order::sorting_sorts(glow);
    order::sorting_sorts(shown);
    assert(order::sorted(glow).contains(key) <==> glow.contains(key));
    assert(order::sorted(shown).contains(key) <==> shown.contains(key));
}

/// The demo sweeps over ten keys and shows the base and then each layer in turn for one
/// sweep, over and over: a step has the key of the one ten steps on, and the sweep behind
/// that of a layer shows the next.
pub proof fn the_demo_goes_through_the_layers(layers: Seq<Seq<char>>, sweep: nat, k: nat)
    requires
        k < 10,
        sweep <= layers.len(),
    ensures
        demo_at(layers, sweep * 10 + k).1 == demo_keys()[k as int],
        sweep == 0 ==> demo_at(layers, sweep * 10 + k).0 is None,
        sweep > 0 ==> demo_at(layers, sweep * 10 + k).0 == Some(layers[sweep - 1]),
        demo_at(layers, (layers.len() + 1) * 10 + k) == demo_at(layers, k),
{
    let n = (layers.len() + 1) as int;
    assert((sweep * 10 + k) / 10 == sweep && (sweep * 10 + k) % 10 == k);
    vstd::arithmetic::div_mod::lemma_small_mod(sweep, n as nat);
    assert((n * 10 + k) / 10 == n && (n * 10 + k) % 10 == k);
    vstd::arithmetic::div_mod::lemma_mod_self_0(n);
    vstd::arithmetic::div_mod::lemma_small_mod(0nat, n as nat);
    assert(k as int / 10 == 0 && k as int % 10 == k);
}

/// The demo goes through every layer that has a board, once, and through nothing else.
pub proof fn the_demo_shows_every_layer(boards: Seq<BoardTagView>, t: Seq<char>)
    ensures
        layer_titles(boards).contains(t) <==> exists|i: int|
            0 <= i < boards.len() && !(#[trigger] boards[i]).is_base && boards[i].title == t,
        layer_titles(boards).no_duplicates(),
    decreases boards.len(),
{
    if boards.len() > 0 {
        let s = boards.drop_last();
        let before = layer_titles(s);
        let all = layer_titles(boards);
        let last = boards.last();
        the_demo_shows_every_layer(s, t);
        the_demo_shows_every_layer(s, last.title);
        assert(boards[boards.len() - 1] == last);
        if before.contains(t) {
            let i = choose|i: int| 0 <= i < before.len() && before[i] == t;
            assert(all[i] == t);
            let k = choose|k: int| 0 <= k < s.len() && !(#[trigger] s[k]).is_base && s[k].title == t;
            assert(boards[k] == s[k]);
        }
        if all.len() > before.len() {
            assert(all[all.len() - 1] == last.title);
        }
        if all.contains(t) {
            let i = choose|i: int| 0 <= i < all.len() && all[i] == t;
            if i < before.len() {
                assert(before[i] == t);
            }
        }
        if exists|i: int|
            0 <= i < boards.len() && !(#[trigger] boards[i]).is_base && boards[i].title == t {
            let i = choose|i: int|
                0 <= i < boards.len() && !(#[trigger] boards[i]).is_base && boards[i].title == t;
            if i < s.len() {
                assert(s[i] == boards[i]);
            }
        }
    }
}

} // verus!
