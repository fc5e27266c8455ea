//! Offering connected keyboards that no specific config governs yet as targets of a
//! fresh one.
//!
//! The filter is deliberately stricter than keyd's own idea of a keyboard: this is a
//! list for people, so precision beats recall.

use crate::applying;
use crate::applying::Invocation;
use crate::applying::InvocationView;
use crate::devices;
use crate::devices::Connected;
use crate::devices::ConnectedView;
use crate::devices::DeviceView;
use crate::devices::InputDevice;
use crate::devices::MatchKind;
use crate::names;
use crate::paths;
use crate::strings;
use crate::text;
use vstd::prelude::*;

verus! {

/// The vendor of keyd's own virtual output devices. A config matching them would point
/// keyd at its own output.
pub open spec fn virtual_vendor() -> Seq<char> {
    "0fac"@
}

/// A device that may be offered: the full key block, not keyd's own output, and no
/// pointer motion.
pub open spec fn may_offer(d: DeviceView, pointer: bool) -> bool {
    d.full_keyboard && d.vendor != virtual_vendor() && !pointer
}

/// Whether a connected device should be offered as a target: it must have the full
/// alphanumeric key block (which drops media-key pseudo-devices), not be keyd's own
/// virtual keyboard, and report no pointer motion (which drops mice with a keyboard
/// interface, and combined keyboard and touchpad nodes).
pub fn is_create_candidate(dev: &InputDevice, pointer: bool) -> (r: bool)
    ensures
        r == may_offer(dev@, pointer),
{
    dev.full_keyboard && !strings::same(dev.vendor.as_str(), "0fac") && !pointer
}

// ---------------------------------------------------------------------------
// Names
// ---------------------------------------------------------------------------

/// A character that a config name keeps, once made small.
pub open spec fn is_kept(c: char) -> bool {
    text::is_alnum(c) || c == '_'
}

/// The name made small, with every run of other characters turned into one dash, and
/// none at the front.
pub open spec fn squeeze(s: Seq<char>) -> Seq<char>
    decreases s.len(),
{
    if s.len() == 0 {
        Seq::empty()
    } else {
        let before = squeeze(s.drop_last());
        let c = text::lower_char(s.last());
        if is_kept(c) {
            before.push(c)
        } else if before.len() > 0 && before.last() != '-' {
            before.push('-')
        } else {
            before
        }
    }
}

/// `s` without the dashes at its end.
pub open spec fn undash(s: Seq<char>) -> Seq<char>
    decreases s.len(),
{
    if s.len() > 0 && s.last() == '-' {
        undash(s.drop_last())
    } else {
        s
    }
}

/// At most sixty-four characters of `s`.
pub open spec fn cap(s: Seq<char>) -> Seq<char> {
    if s.len() > 64 {
        s.subrange(0, 64)
    } else {
        s
    }
}

/// The config name suggested for a device name.
pub open spec fn suggested_name(name: Seq<char>) -> Seq<char> {
    let s = undash(cap(undash(squeeze(name))));
    if s.len() == 0 {
        "keyboard"@
    } else {
        s
    }
}

/// The characters without the dashes at the end.
fn undash_len(v: &Vec<char>, n: usize) -> (r: usize)
    requires
        n <= v@.len(),
    ensures
        r <= n,
        undash(v@.subrange(0, n as int)) == v@.subrange(0, r as int),
{
    let mut k: usize = n;
    while k > 0 && v[k - 1] == '-'
        invariant
            k <= n <= v@.len(),
            undash(v@.subrange(0, n as int)) == undash(v@.subrange(0, k as int)),
        decreases k,
    {
        assert(v@.subrange(0, k as int).drop_last() =~= v@.subrange(0, k - 1));
        k = k - 1;
    }
    k
}

/// Turn a free-form device name into a config name the apply tool accepts: made small,
/// every run of other characters collapsed to a single dash, dashes trimmed, capped.
/// Falls back to `keyboard` when nothing usable survives.
pub fn sanitize_config_name(name: &str) -> (r: String)
    ensures
        r@ == suggested_name(name@),
{
    let src = strings::chars(name);
    let mut s: Vec<char> = Vec::new();
    let mut i: usize = 0;
    while i < src.len()
        invariant
            i <= src@.len(),
            src@ == name@,
            s@ == squeeze(name@.subrange(0, i as int)),
        decreases src.len() - i,
    {
        assert(name@.subrange(0, i + 1).drop_last() =~= name@.subrange(0, i as int));
        let c = strings::lower_char(src[i]);
        if strings::is_alnum(c) || c == '_' {
            s.push(c);
        } else if s.len() > 0 && s[s.len() - 1] != '-' {
            s.push('-');
        }
        i = i + 1;
    }
    assert(name@.subrange(0, i as int) =~= name@);
    let n: usize = s.len();
    let a: usize = undash_len(&s, n);
    assert(s@.subrange(0, n as int) =~= s@);
    let b: usize = if a > 64 { 64 } else { a };
    assert(cap(s@.subrange(0, a as int)) =~= s@.subrange(0, b as int));
    let c: usize = undash_len(&s, b);
    if c == 0 {
        strings::copy("keyboard")
    } else {
        strings::slice(&s, 0, c)
    }
}

/// A name in the form that the squeeze leaves: kept characters, made small, and single
/// dashes between them.
pub open spec fn is_squeezed(s: Seq<char>) -> bool {
    forall|i: int|
        0 <= i < s.len() ==> {
            let c = #[trigger] s[i];
            ||| is_kept(c) && text::lower_char(c) == c
            ||| c == '-' && i > 0 && s[i - 1] != '-'
        }
}

proof fn squeeze_squeezes(s: Seq<char>)
    ensures
        is_squeezed(squeeze(s)),
    decreases s.len(),
{
    if s.len() > 0 {
        squeeze_squeezes(s.drop_last());
    }
}

proof fn squeezed_prefix(s: Seq<char>, n: int)
    requires
        is_squeezed(s),
        0 <= n <= s.len(),
    ensures
        is_squeezed(s.subrange(0, n)),
{
    let t = s.subrange(0, n);
    assert forall|i: int| 0 <= i < t.len() implies {
        let c = #[trigger] t[i];
        ||| is_kept(c) && text::lower_char(c) == c
        ||| c == '-' && i > 0 && t[i - 1] != '-'
    } by {
        assert(t[i] == s[i]);
        if i > 0 {
            assert(t[i - 1] == s[i - 1]);
        }
    }
}

proof fn undash_is_prefix(s: Seq<char>) -> (n: int)
    ensures
        0 <= n <= s.len(),
        undash(s) == s.subrange(0, n),
        n > 0 ==> s[n - 1] != '-',
    decreases s.len(),
{
    if s.len() > 0 && s.last() == '-' {
        let n = undash_is_prefix(s.drop_last());
        assert(s.drop_last().subrange(0, n) =~= s.subrange(0, n));
        n
    } else {
        assert(s.subrange(0, s.len() as int) =~= s);
        s.len() as int
    }
}

proof fn squeeze_keeps_squeezed(s: Seq<char>)
    requires
        is_squeezed(s),
    ensures
        squeeze(s) == s,
    decreases s.len(),
{
    if s.len() > 0 {
        let t = s.drop_last();
        assert(t =~= s.subrange(0, s.len() - 1));
        squeezed_prefix(s, s.len() - 1);
        squeeze_keeps_squeezed(t);
        let c = s[s.len() - 1];
        assert(c == s.last());
        if c == '-' {
            assert(t.last() == s[s.len() - 2]);
        }
        assert(t.push(c) =~= s);
    } else {
        assert(s =~= Seq::<char>::empty());
    }
}

/// The name that the sanitising works on: squeezed, capped, and without a dash at its end.
proof fn suggestion_is_squeezed(name: Seq<char>)
    ensures
        is_squeezed(suggested_name(name)),
        0 < suggested_name(name).len() <= 64,
        suggested_name(name).last() != '-',
{
    reveal_strlit("keyboard");
    squeeze_squeezes(name);
    let a = squeeze(name);
    let n = undash_is_prefix(a);
    squeezed_prefix(a, n);
    let b = a.subrange(0, n);
    let c = cap(b);
    if b.len() > 64 {
        squeezed_prefix(b, 64);
    }
    let m = undash_is_prefix(c);
    squeezed_prefix(c, m);
}

/// Every suggested name is one that the apply tool accepts.
pub proof fn suggested_names_are_valid(name: Seq<char>)
    ensures
        names::is_valid_name(suggested_name(name)),
{
    suggestion_is_squeezed(name);
    let s = suggested_name(name);
    assert forall|i: int| 0 <= i < s.len() implies names::name_char(#[trigger] s[i]) by {}
}

/// Sanitising a sanitised name changes nothing.
pub proof fn sanitising_is_idempotent(name: Seq<char>)
    ensures
        suggested_name(suggested_name(name)) == suggested_name(name),
{
    suggestion_is_squeezed(name);
    let s = suggested_name(name);
    squeeze_keeps_squeezed(s);
    assert(undash(s) == s);
    assert(cap(s) == s);
}

// ---------------------------------------------------------------------------
// The scan
// ---------------------------------------------------------------------------

/// A connected keyboard that has no specific config yet.
#[derive(Debug, PartialEq, Eq)]
pub struct CreateCandidate {
    /// The raw device name (may be empty), used as the new board's label.
    pub name: String,
    /// What the list shows, such as `PFU HHKB (04fe:0021)`.
    pub label: String,
    /// The `[ids]` entry to seed.
    pub devid: String,
    /// A config name suggested from the device name.
    pub suggested: String,
}

pub struct CandidateView {
    pub name: Seq<char>,
    pub label: Seq<char>,
    pub devid: Seq<char>,
    pub suggested: Seq<char>,
}

impl View for CreateCandidate {
    type V = CandidateView;

    open spec fn view(&self) -> CandidateView {
        CandidateView {
            name: self.name@,
            label: self.label@,
            devid: self.devid@,
            suggested: self.suggested@,
        }
    }
}

/// A keyboard that a specific config governs, and whether its name is that of a full
/// keyboard node.
pub struct GovernedView {
    pub devid: Seq<char>,
    pub name: Seq<char>,
    pub full: bool,
}

/// What is shown for a device without a name is its id.
pub open spec fn shown_name(d: DeviceView) -> Seq<char> {
    if d.name.len() == 0 {
        d.devid()
    } else {
        d.name
    }
}

/// The candidate that a device is offered as.
pub open spec fn candidate_of(d: DeviceView) -> CandidateView {
    CandidateView {
        name: d.name,
        label: if d.name.len() == 0 {
            d.devid()
        } else {
            d.name + " ("@ + d.devid() + ")"@
        },
        devid: d.devid(),
        suggested: suggested_name(d.name),
    }
}

/// The first entry with the id.
pub open spec fn governed_at(list: Seq<GovernedView>, devid: Seq<char>) -> Option<int>
    decreases list.len(),
{
    if list.len() == 0 {
        None
    } else {
        match governed_at(list.drop_last(), devid) {
            Some(i) => Some(i),
            None => if list.last().devid == devid {
                Some(list.len() - 1)
            } else {
                None
            },
        }
    }
}

/// The governed keyboards with one more node: one entry for each id, named after a full
/// keyboard node where there is one.
pub open spec fn with_governed(list: Seq<GovernedView>, d: DeviceView) -> Seq<GovernedView> {
    let one = GovernedView { devid: d.devid(), name: shown_name(d), full: d.full_keyboard };
    match governed_at(list, d.devid()) {
        None => list.push(one),
        Some(i) => if d.full_keyboard && !list[i].full {
            list.update(i, one)
        } else {
            list
        },
    }
}

/// Some candidate has the id.
pub open spec fn offered(list: Seq<CandidateView>, devid: Seq<char>) -> bool {
    exists|i: int| 0 <= i < list.len() && (#[trigger] list[i]).devid == devid
}

/// What the first `n` devices come to: candidates, and keyboards that are governed
/// already.
pub open spec fn scan_upto(all: Seq<ConnectedView>, n: nat) -> (
    Seq<CandidateView>,
    Seq<GovernedView>,
)
    decreases n,
{
    if n == 0 {
        (Seq::empty(), Seq::empty())
    } else {
        let (offers, governed) = scan_upto(all, (n - 1) as nat);
        let c = all[n - 1];
        if devices::best_kind(c.kinds) == MatchKind::Explicit {
            (
                offers,
                if c.dev.is_keyboard {
                    with_governed(governed, c.dev)
                } else {
                    governed
                },
            )
        } else if may_offer(c.dev, c.pointer) && !offered(offers, c.dev.devid()) {
            (offers.push(candidate_of(c.dev)), governed)
        } else {
            (offers, governed)
        }
    }
}

/// What the create dialog offers, and what it explains.
#[derive(Debug)]
pub struct CreateScan {
    /// Keyboards offered as targets of a fresh config.
    pub candidates: Vec<CreateCandidate>,
    /// Names of connected keyboards that a specific config governs already.
    pub already_configured: Vec<String>,
}

/// The names of the governed keyboards.
pub open spec fn governed_names(list: Seq<GovernedView>) -> Seq<Seq<char>> {
    Seq::new(list.len(), |i: int| list[i].name)
}

struct Governed {
    devid: String,
    name: String,
    full: bool,
}

impl View for Governed {
    type V = GovernedView;

    closed spec fn view(&self) -> GovernedView {
        GovernedView { devid: self.devid@, name: self.name@, full: self.full }
    }
}

proof fn governed_at_is_stable(list: Seq<GovernedView>, devid: Seq<char>, n: int)
    requires
        0 <= n <= list.len(),
        governed_at(list.subrange(0, n), devid) is Some,
    ensures
        governed_at(list, devid) == governed_at(list.subrange(0, n), devid),
    decreases list.len(),
{
    if n < list.len() {
        assert(list.drop_last().subrange(0, n) =~= list.subrange(0, n));
        governed_at_is_stable(list.drop_last(), devid, n);
    } else {
        assert(list.subrange(0, n) =~= list);
    }
}

/// The index of the first entry with the id.
fn find_governed(list: &Vec<Governed>, devid: &str) -> (r: Option<usize>)
    ensures
        match r {
            Some(i) => i < list@.len() && governed_at(text::views(list@), devid@) == Some(i as int),
            None => governed_at(text::views(list@), devid@) is None,
        },
{
    let ghost v = text::views(list@);
    let mut i: usize = 0;
    while i < list.len()
        invariant
            i <= list@.len(),
            v == text::views(list@),
            governed_at(v.subrange(0, i as int), devid@) is None,
        decreases list.len() - i,
    {
        let ghost next = v.subrange(0, i + 1);
        assert(next.drop_last() =~= v.subrange(0, i as int));
        assert(next.last() == list@[i as int]@);
        if strings::same(list[i].devid.as_str(), devid) {
            proof {
                governed_at_is_stable(v, devid@, i + 1);
            }
            return Some(i);
        }
        i = i + 1;
    }
    assert(v.subrange(0, i as int) =~= v);
    None
}

/// Add one governed node.
fn add_governed(list: &mut Vec<Governed>, d: &InputDevice)
    ensures
        text::views(final(list)@) == with_governed(text::views(old(list)@), d@),
{
    let devid = d.devid();
    let ghost before = text::views(list@);
    match find_governed(list, devid.as_str()) {
        None => {
            let name = if d.name.as_str().is_empty() {
                strings::copy(devid.as_str())
            } else {
                strings::copy(d.name.as_str())
            };
            let one = Governed { devid, name, full: d.full_keyboard };
            let ghost onev = one@;
            list.push(one);
            assert(text::views(list@) =~= before.push(onev));
        },
        Some(i) => {
            assert(before[i as int] == list@[i as int]@);
            if d.full_keyboard && !list[i].full {
                let name = if d.name.as_str().is_empty() {
                    strings::copy(devid.as_str())
                } else {
                    strings::copy(d.name.as_str())
                };
                let one = Governed { devid, name, full: true };
                let ghost onev = one@;
                list.set(i, one);
                assert(text::views(list@) =~= before.update(i as int, onev));
            }
        },
    }
}

/// Whether some candidate has the id.
fn is_offered(list: &Vec<CreateCandidate>, devid: &str) -> (r: bool)
    ensures
        r == offered(text::views(list@), devid@),
{
    let ghost v = text::views(list@);
    let mut i: usize = 0;
    while i < list.len()
        invariant
            i <= list@.len(),
            v == text::views(list@),
            forall|j: int| 0 <= j < i ==> (#[trigger] v[j]).devid != devid@,
        decreases list.len() - i,
    {
        assert(v[i as int] == list@[i as int]@);
        if strings::same(list[i].devid.as_str(), devid) {
            return true;
        }
        i = i + 1;
    }
    false
}

/// Split connected devices into those offered as targets of a fresh config (no config or
/// only a wildcard matches, and a real physical keyboard) and the names of those that a
/// specific config governs. Both have one entry for each `vendor:product`.
pub fn create_scan(all: &Vec<Connected>) -> (r: CreateScan)
    ensures
        text::views(r.candidates@) == scan_upto(text::views(all@), all@.len()).0,
        text::texts(r.already_configured@) == governed_names(
            scan_upto(text::views(all@), all@.len()).1,
        ),
{
    let ghost v = text::views(all@);
    let mut offers: Vec<CreateCandidate> = Vec::new();
    let mut governed: Vec<Governed> = Vec::new();
    let mut i: usize = 0;
    assert(text::views(offers@) =~= Seq::<CandidateView>::empty());
    assert(text::views(governed@) =~= Seq::<GovernedView>::empty());
    while i < all.len()
        invariant
            i <= all@.len(),
            v == text::views(all@),
            (text::views(offers@), text::views(governed@)) == scan_upto(v, i as nat),
        decreases all.len() - i,
    {
        assert(v[i as int] == all@[i as int]@);
        let c = &all[i];
        let explicit = match devices::governing_config(&c.kinds) {
            Some(k) => match c.kinds[k] {
                MatchKind::Explicit => true,
                _ => false,
            },
            None => false,
        };
        if explicit {
            if c.dev.is_keyboard {
                add_governed(&mut governed, &c.dev);
            }
        } else {
            let devid = c.dev.devid();
            if is_create_candidate(&c.dev, c.pointer) && !is_offered(&offers, devid.as_str()) {
                let ghost before = text::views(offers@);
                let label = if c.dev.name.as_str().is_empty() {
                    strings::copy(devid.as_str())
                } else {
                    let mut l = strings::cat3(c.dev.name.as_str(), " (", devid.as_str());
                    l.append(")");
                    l
                };
                let one = CreateCandidate {
                    name: strings::copy(c.dev.name.as_str()),
                    label,
                    suggested: sanitize_config_name(c.dev.name.as_str()),
                    devid,
                };
                let ghost onev = one@;
                assert(onev == candidate_of(c.dev@));
                offers.push(one);
                assert(text::views(offers@) =~= before.push(onev));
            }
        }
        i = i + 1;
    }
    let ghost gov = text::views(governed@);
    let mut names: Vec<String> = Vec::new();
    let mut k: usize = 0;
    while k < governed.len()
        invariant
            k <= governed@.len(),
            gov == text::views(governed@),
            names@.len() == k,
            forall|j: int| 0 <= j < k ==> #[trigger] names@[j]@ == gov[j].name,
        decreases governed.len() - k,
    {
        assert(gov[k as int] == governed@[k as int]@);
        names.push(strings::copy(governed[k].name.as_str()));
        k = k + 1;
    }
    assert(text::texts(names@) =~= governed_names(gov));
    CreateScan { candidates: offers, already_configured: names }
}

/// Each candidate can be applied to, and stems from one of the first `n` devices that may
/// be offered.
pub open spec fn each_sourced(offers: Seq<CandidateView>, all: Seq<ConnectedView>, n: nat) -> bool {
    forall|i: int| 0 <= i < offers.len() ==> is_sourced(#[trigger] offers[i], all, n)
}

/// The candidate can be applied to, and stems from one of the first `n` devices that may
/// be offered.
pub open spec fn is_sourced(x: CandidateView, all: Seq<ConnectedView>, n: nat) -> bool {
    names::is_valid_name(x.suggested) && exists|k: int|
        0 <= k < n && #[trigger] is_source(all[k], x)
}

/// No two candidates share an id.
pub open spec fn ids_differ(offers: Seq<CandidateView>) -> bool {
    forall|i: int, j: int|
        0 <= i < j < offers.len() ==> (#[trigger] offers[i]).devid != (#[trigger] offers[j]).devid
}

/// Whatever is connected, each candidate is a full keyboard of its own id, never keyd's
/// own output, never a pointer, never one that a specific config governs, and its
/// suggested name is one that can be applied.
pub proof fn candidates_are_real_keyboards(all: Seq<ConnectedView>, n: nat)
    requires
        n <= all.len(),
    ensures
        each_sourced(scan_upto(all, n).0, all, n),
        ids_differ(scan_upto(all, n).0),
    decreases n,
{
    if n > 0 {
        candidates_are_real_keyboards(all, (n - 1) as nat);
        let before = scan_upto(all, (n - 1) as nat).0;
        let offers = scan_upto(all, n).0;
        let c = all[n - 1];
        suggested_names_are_valid(c.dev.name);
        assert forall|i: int| 0 <= i < offers.len() implies is_sourced(
            #[trigger] offers[i],
            all,
            n,
        ) by {
            if i < before.len() {
                assert(offers[i] == before[i]);
                assert(is_sourced(before[i], all, (n - 1) as nat));
                let k = choose|k: int|
                    0 <= k < n - 1 && #[trigger] is_source(all[k], before[i]);
                assert(is_source(all[k], offers[i]));
            } else {
                assert(is_source(all[n - 1], offers[i]));
            }
        }
        assert forall|i: int, j: int| 0 <= i < j < offers.len() implies (
        #[trigger] offers[i]).devid != (#[trigger] offers[j]).devid by {
            if j < before.len() {
                assert(offers[i] == before[i] && offers[j] == before[j]);
            } else {
                assert(offers[i] == before[i]);
                assert(!offered(before, c.dev.devid()));
            }
        }
    }
}

/// The connected device is one that may be offered as the candidate.
pub open spec fn is_source(c: ConnectedView, x: CandidateView) -> bool {
    &&& may_offer(c.dev, c.pointer)
    &&& devices::best_kind(c.kinds) != MatchKind::Explicit
    &&& x == candidate_of(c.dev)
}

/// Some config names the device itself.
pub open spec fn is_claimed(c: ConnectedView) -> bool {
    exists|j: int| 0 <= j < c.kinds.len() && #[trigger] c.kinds[j] == MatchKind::Explicit
}

proof fn claimed_is_explicit(c: ConnectedView)
    ensures
        devices::best_kind(c.kinds) == MatchKind::Explicit <==> is_claimed(c),
{
    devices::governing_config_matches_best(c.kinds);
    if is_claimed(c) {
        let j = choose|j: int|
            0 <= j < c.kinds.len() && #[trigger] c.kinds[j] == MatchKind::Explicit;
        let best = devices::best_config(c.kinds);
        assert(devices::rank_of(c.kinds[j]) <= devices::rank_of(c.kinds[best->0]));
    }
}

/// No keyboard is left without an offer: every connected device with the full key block,
/// that is not keyd's own output and reports no pointer motion, and that no config names
/// itself, has a candidate with its id, whether a wildcard catches it or nothing does.
pub proof fn every_unclaimed_keyboard_is_offered(all: Seq<ConnectedView>, n: nat)
    requires
        n <= all.len(),
    ensures
        forall|k: int|
            0 <= k < n && (#[trigger] all[k]).dev.full_keyboard && all[k].dev.vendor != "0fac"@
                && !all[k].pointer && !is_claimed(all[k]) ==> exists|i: int|
                0 <= i < scan_upto(all, n).0.len() && (#[trigger] scan_upto(all, n).0[i]).devid
                    == all[k].dev.vendor + ":"@ + all[k].dev.product,
    decreases n,
{
    if n > 0 {
        every_unclaimed_keyboard_is_offered(all, (n - 1) as nat);
        let before = scan_upto(all, (n - 1) as nat).0;
        let offers = scan_upto(all, n).0;
        assert forall|k: int|
            0 <= k < n && (#[trigger] all[k]).dev.full_keyboard && all[k].dev.vendor != "0fac"@
                && !all[k].pointer && !is_claimed(all[k]) implies exists|i: int|
            0 <= i < offers.len() && (#[trigger] offers[i]).devid == all[k].dev.vendor + ":"@
                + all[k].dev.product by {
            claimed_is_explicit(all[k]);
            let id = all[k].dev.vendor + ":"@ + all[k].dev.product;
            if k < n - 1 {
                let i = choose|i: int|
                    0 <= i < before.len() && (#[trigger] before[i]).devid == id;
                assert(offers[i] == before[i]);
            } else if offered(before, id) {
                let i = choose|i: int|
                    0 <= i < before.len() && (#[trigger] before[i]).devid == id;
                assert(offers[i] == before[i]);
            } else {
                assert(offers[offers.len() - 1].devid == id);
            }
        }
    }
}

/// Every candidate is one of the connected keyboards as it is: with the full key block, not
/// keyd's own output, no pointer, named by no config itself, and shown by its own name and
/// id.
pub proof fn every_offer_is_an_unclaimed_keyboard(all: Seq<ConnectedView>, n: nat, i: int)
    requires
        n <= all.len(),
        0 <= i < scan_upto(all, n).0.len(),
    ensures
        exists|k: int|
            0 <= k < n && (#[trigger] all[k]).dev.full_keyboard && all[k].dev.vendor != "0fac"@
                && !all[k].pointer && !is_claimed(all[k]) && ({
                let x = scan_upto(all, n).0[i];
                let d = all[k].dev;
                &&& x.devid == d.vendor + ":"@ + d.product
                &&& x.name == d.name
                &&& d.name.len() == 0 ==> x.label == x.devid
                &&& d.name.len() > 0 ==> x.label == d.name + " ("@ + x.devid + ")"@
                &&& x.suggested == suggested_name(d.name)
            }),
{
    candidates_are_real_keyboards(all, n);
    let x = scan_upto(all, n).0[i];
    assert(is_sourced(x, all, n));
    let k = choose|k: int| 0 <= k < n && #[trigger] is_source(all[k], x);
    claimed_is_explicit(all[k]);
}

/// The entry is that of a keyboard which some config names itself, under its name and id.
pub open spec fn stems_from(g: GovernedView, c: ConnectedView) -> bool {
    &&& is_claimed(c)
    &&& c.dev.is_keyboard
    &&& g.devid == c.dev.vendor + ":"@ + c.dev.product
    &&& c.dev.name.len() == 0 ==> g.name == g.devid
    &&& c.dev.name.len() > 0 ==> g.name == c.dev.name
    &&& g.full == c.dev.full_keyboard
}

/// The entry stands for the device: it has its id, and the name of a node with the full key
/// block where the device is one.
pub open spec fn stands_for(g: GovernedView, c: ConnectedView) -> bool {
    g.devid == c.dev.vendor + ":"@ + c.dev.product && (c.dev.full_keyboard ==> g.full)
}

/// Some of the first `n` devices is behind the entry.
pub open spec fn has_device(g: GovernedView, all: Seq<ConnectedView>, n: nat) -> bool {
    exists|k: int| 0 <= k < n && stems_from(g, #[trigger] all[k])
}

/// Some entry stands for the device.
pub open spec fn is_listed(list: Seq<GovernedView>, c: ConnectedView) -> bool {
    exists|i: int| 0 <= i < list.len() && stands_for(#[trigger] list[i], c)
}

/// The governed keyboards are those of the first `n` devices that some config names.
pub open spec fn governs(list: Seq<GovernedView>, all: Seq<ConnectedView>, n: nat) -> bool {
    &&& forall|i: int| 0 <= i < list.len() ==> has_device(#[trigger] list[i], all, n)
    &&& forall|k: int|
        0 <= k < n && is_claimed(#[trigger] all[k]) && all[k].dev.is_keyboard ==> is_listed(
            list,
            all[k],
        )
    &&& forall|i: int, j: int|
        0 <= i < j < list.len() ==> (#[trigger] list[i]).devid != (#[trigger] list[j]).devid
}

proof fn governed_at_is_first(list: Seq<GovernedView>, devid: Seq<char>)
    ensures
        match governed_at(list, devid) {
            Some(i) => 0 <= i < list.len() && list[i].devid == devid,
            None => forall|i: int| 0 <= i < list.len() ==> (#[trigger] list[i]).devid != devid,
        },
    decreases list.len(),
{
    if list.len() > 0 {
        let t = list.drop_last();
        governed_at_is_first(t, devid);
        if governed_at(list, devid) is None {
            assert forall|i: int| 0 <= i < list.len() implies (#[trigger] list[i]).devid
                != devid by {
                if i < t.len() {
                    assert(t[i] == list[i]);
                }
            }
        }
    }
}

/// The keyboards that a config names are those listed as configured: each of them once, by
/// the name of a node with the full key block where there is one, and no other.
pub proof fn every_claimed_keyboard_is_listed(all: Seq<ConnectedView>, n: nat)
    requires
        n <= all.len(),
    ensures
        governs(scan_upto(all, n).1, all, n),
        governed_names(scan_upto(all, n).1) == scan_upto(all, n).1.map_values(
            |g: GovernedView| g.name,
        ),
    decreases n,
{
    let list = scan_upto(all, n).1;
    assert(governed_names(list) =~= list.map_values(|g: GovernedView| g.name));
    if n > 0 {
        let m = (n - 1) as nat;
        every_claimed_keyboard_is_listed(all, m);
        let before = scan_upto(all, m).1;
        let c = all[n - 1];
        claimed_is_explicit(c);
        if is_claimed(c) && c.dev.is_keyboard {
            one_more_is_listed(before, all, m);
        } else {
            assert forall|i: int| 0 <= i < list.len() implies has_device(
                #[trigger] list[i],
                all,
                n,
            ) by {
                assert(has_device(before[i], all, m));
                let k = choose|k: int| 0 <= k < m && stems_from(before[i], #[trigger] all[k]);
                assert(stems_from(list[i], all[k]));
            }
        }
    }
}

proof fn one_more_is_listed(before: Seq<GovernedView>, all: Seq<ConnectedView>, m: nat)
    requires
        m < all.len(),
        governs(before, all, m),
        is_claimed(all[m as int]),
        all[m as int].dev.is_keyboard,
    ensures
        governs(with_governed(before, all[m as int].dev), all, m + 1),
{
    let c = all[m as int];
    let id = c.dev.devid();
    let list = with_governed(before, c.dev);
    let at = governed_at(before, id);
    let one = GovernedView { devid: id, name: shown_name(c.dev), full: c.dev.full_keyboard };
    governed_at_is_first(before, id);
    assert(stems_from(one, c));
    assert forall|i: int| 0 <= i < list.len() implies has_device(
        #[trigger] list[i],
        all,
        m + 1,
    ) by {
        if i < before.len() && list[i] == before[i] {
            assert(has_device(before[i], all, m));
            let k = choose|k: int| 0 <= k < m && stems_from(before[i], #[trigger] all[k]);
            assert(stems_from(list[i], all[k]));
        } else {
            assert(list[i] == one);
            assert(stems_from(list[i], all[m as int]));
        }
    }
    assert forall|k: int|
        0 <= k < m + 1 && is_claimed(#[trigger] all[k]) && all[k].dev.is_keyboard implies is_listed(
        list,
        all[k],
    ) by {
        if k < m {
            assert(is_listed(before, all[k]));
            let i = choose|i: int| 0 <= i < before.len() && stands_for(#[trigger] before[i], all[k]);
            assert(stands_for(list[i], all[k]));
        } else if at is Some {
            assert(stands_for(list[at->0], c));
        } else {
            assert(list[list.len() - 1] == one);
            assert(stands_for(list[list.len() - 1], c));
        }
    }
    assert forall|i: int, j: int| 0 <= i < j < list.len() implies (#[trigger] list[i]).devid != (
    #[trigger] list[j]).devid by {
        assert(i < before.len() ==> list[i].devid == before[i].devid);
        assert(j < before.len() ==> list[j].devid == before[j].devid);
    }
}

/// The line that explains which keyboards are configured already.
pub open spec fn governed_text(names: Seq<Seq<char>>) -> Seq<char> {
    if names.len() == 0 {
        Seq::empty()
    } else {
        let shown = if names.len() > 4 {
            names.subrange(0, 4)
        } else {
            names
        };
        "Already configured — edit from the chooser above: "@ + text::join(shown, ", "@) + (
        if names.len() > 4 {
            " (+"@ + text::decimal((names.len() - 4) as nat) + " more)"@
        } else {
            Seq::empty()
        })
    }
}

/// The "already configured" explainer for the create dialog, empty when there is nothing
/// to explain. Capped so that a busy machine does not produce an unreadably long line.
pub fn governed_line(names: &Vec<String>) -> (r: String)
    ensures
        r@ == governed_text(text::texts(names@)),
{
    if names.len() == 0 {
        return String::new();
    }
    let ghost all = text::texts(names@);
    let n: usize = names.len();
    let shown: usize = if n > 4 { 4 } else { n };
    let mut first: Vec<String> = Vec::new();
    let mut i: usize = 0;
    while i < shown
        invariant
            i <= shown <= names@.len(),
            first@.len() == i,
            forall|j: int| 0 <= j < i ==> #[trigger] first@[j]@ == names@[j]@,
        decreases shown - i,
    {
        first.push(strings::copy(names[i].as_str()));
        i = i + 1;
    }
    assert(text::texts(first@) =~= (if all.len() > 4 {
        all.subrange(0, 4)
    } else {
        all
    }));
    let mut r = strings::copy("Already configured — edit from the chooser above: ");
    r.append(strings::join(&first, ", ").as_str());
    let ghost head = r@;
    if n > 4 {
        r.append(" (+");
        r.append(strings::decimal((n - 4) as u64).as_str());
        r.append(" more)");
        assert(r@ =~= head + (" (+"@ + text::decimal((n - 4) as nat) + " more)"@));
    } else {
        assert(r@ =~= head + Seq::<char>::empty());
    }
    r
}

// ---------------------------------------------------------------------------
// The new config
// ---------------------------------------------------------------------------

/// The directory that a new config is read against and written to: the one one-click
/// apply targets, or that of keyd where it is not available.
pub open spec fn directory_for(how: Option<InvocationView>) -> Seq<char> {
    match how {
        Some(h) => h.config_dir(),
        None => applying::config_root(),
    }
}

/// The directory that a new config is read against and written to.
pub fn create_config_dir(how: &Option<Invocation>) -> (r: String)
    ensures
        r@ == directory_for(applying::invocation_opt(*how)),
{
    match how {
        Some(h) => strings::copy(h.config_dir()),
        None => strings::copy(applying::prod_config_dir()),
    }
}

/// Where the config called `name` lives.
pub open spec fn config_path_of(dir: Seq<char>, name: Seq<char>) -> Seq<char> {
    paths::join(dir, name + ".conf"@)
}

/// Where the config called `name` lives; it is taken if that file exists.
pub fn config_path(dir: &str, name: &str) -> (r: String)
    ensures
        r@ == config_path_of(dir@, name@),
{
    paths::join_path(dir, strings::cat(name, ".conf").as_str())
}

/// The id and name that the dialog opens with: those of the first candidate, or the
/// wildcard.
pub open spec fn preselected(candidates: Seq<CandidateView>) -> (Seq<char>, Seq<char>) {
    if candidates.len() > 0 {
        (candidates[0].devid, candidates[0].suggested)
    } else {
        ("*"@, "default"@)
    }
}

/// The id and name that the dialog opens with.
pub fn first_choice(candidates: &Vec<CreateCandidate>) -> (r: (String, String))
    ensures
        (r.0@, r.1@) == preselected(text::views(candidates@)),
{
    if candidates.len() > 0 {
        (
            strings::copy(candidates[0].devid.as_str()),
            strings::copy(candidates[0].suggested.as_str()),
        )
    } else {
        (strings::copy("*"), strings::copy("default"))
    }
}

/// The name a new config gets, or why it is refused before the disk is looked at.
pub open spec fn new_name(id: Seq<char>, name: Seq<char>) -> Result<Seq<char>, Seq<char>> {
    if id.len() == 0 {
        Err("pick a keyboard or “All keyboards”"@)
    } else if !names::is_valid_name(text::trim(name)) {
        Err("name: letters, digits, '_' or '-' only (max 64)"@)
    } else {
        Ok(text::trim(name))
    }
}

/// The name a new config gets, or why it is refused.
pub fn check_new_name(id: &str, name: &str) -> (r: Result<String, String>)
    ensures
        match r {
            Ok(n) => new_name(id@, name@) == Ok::<Seq<char>, Seq<char>>(n@),
            Err(e) => new_name(id@, name@) == Err::<Seq<char>, Seq<char>>(e@),
        },
{
    if id.is_empty() {
        return Err(strings::copy("pick a keyboard or “All keyboards”"));
    }
    let trimmed = strings::trim(name);
    if !names::valid_name(trimmed.as_str()) {
        return Err(strings::copy("name: letters, digits, '_' or '-' only (max 64)"));
    }
    Ok(trimmed)
}

/// What is said where the file of a new config exists already.
pub open spec fn taken_line(name: Seq<char>) -> Seq<char> {
    name + ".conf already exists — choose another name"@
}

/// What is said where the file of a new config exists already.
pub fn name_taken_text(name: &str) -> (r: String)
    ensures
        r@ == taken_line(name@),
{
    strings::cat(name, ".conf already exists — choose another name")
}

/// The banner over a new config, `device` being the name of the keyboard it is for.
pub open spec fn banner_line(id: Seq<char>, device: Option<Seq<char>>) -> Seq<char> {
    if id == "*"@ {
        "new config — applies to all keyboards not claimed by another config"@
    } else if device is Some && device->0.len() > 0 {
        "new config — applies to "@ + device->0 + " ("@ + id + ")"@
    } else {
        "new config — applies to "@ + id
    }
}

/// The banner over a new config.
pub fn new_banner(id: &str, device: &Option<String>) -> (r: String)
    ensures
        r@ == banner_line(id@, text::opt(*device)),
{
    if strings::same(id, "*") {
        return strings::copy("new config — applies to all keyboards not claimed by another config");
    }
    if let Some(n) = device {
        if !n.as_str().is_empty() {
            let mut r = strings::cat3("new config — applies to ", n.as_str(), " (");
            r.append(id);
            r.append(")");
            return r;
        }
    }
    strings::cat("new config — applies to ", id)
}

// ---------------------------------------------------------------------------
// What a new config is called
// ---------------------------------------------------------------------------

/// The letters, digits and underscores of a name, made small.
pub open spec fn letters_of(s: Seq<char>) -> Seq<char>
    decreases s.len(),
{
    if s.len() == 0 {
        Seq::empty()
    } else {
        let c = s.last();
        let before = letters_of(s.drop_last());
        if ('a' <= c && c <= 'z') || ('0' <= c && c <= '9') || c == '_' {
            before.push(c)
        } else if 'A' <= c && c <= 'Z' {
            before.push(((c as u8) + 32) as u8 as char)
        } else {
            before
        }
    }
}

proof fn squeezing_keeps_letters(s: Seq<char>)
    ensures
        letters_of(squeeze(s)) == letters_of(s),
    decreases s.len(),
{
    if s.len() > 0 {
        squeezing_keeps_letters(s.drop_last());
        let before = squeeze(s.drop_last());
        let c = text::lower_char(s.last());
        assert(before.push(c).drop_last() =~= before);
        assert(before.push('-').drop_last() =~= before);
    }
}

proof fn undashing_keeps_letters(s: Seq<char>)
    ensures
        letters_of(undash(s)) == letters_of(s),
    decreases s.len(),
{
    if s.len() > 0 && s.last() == '-' {
        undashing_keeps_letters(s.drop_last());
    }
}

/// No letter of a device's name is lost: the suggested name has all of them in their order,
/// as long as they have room in it, and there is one that stands for a name without any.
pub proof fn a_suggested_name_keeps_the_letters(name: Seq<char>)
    ensures
        name.len() <= 64 && letters_of(name).len() > 0 ==> letters_of(suggested_name(name))
            == letters_of(name),
        letters_of(name).len() == 0 ==> suggested_name(name) == "keyboard"@,
{
    let squeezed = squeeze(name);
    squeezing_keeps_letters(name);
    undashing_keeps_letters(squeezed);
    squeeze_is_no_longer(name);
    let n = undash_is_prefix(squeezed);
    undashing_keeps_letters(cap(undash(squeezed)));
    if letters_of(name).len() == 0 {
        squeeze_squeezes(name);
        no_letters_is_nothing(name);
        assert(undash(squeezed) =~= Seq::<char>::empty());
        assert(cap(undash(squeezed)) =~= Seq::<char>::empty());
    }
}

proof fn squeeze_is_no_longer(s: Seq<char>)
    ensures
        squeeze(s).len() <= s.len(),
    decreases s.len(),
{
    if s.len() > 0 {
        squeeze_is_no_longer(s.drop_last());
    }
}

proof fn no_letters_is_nothing(s: Seq<char>)
    requires
        letters_of(s).len() == 0,
    ensures
        squeeze(s).len() == 0,
    decreases s.len(),
{
    if s.len() > 0 {
        no_letters_is_nothing(s.drop_last());
    }
}

/// Whatever stands between two letters keeps them apart, by one dash however much it is, and
/// letters that stand together stay together.
pub proof fn words_of_a_name_stay_apart(s: Seq<char>, x: char, c: char, d: char, y: char)
    requires
        'a' <= x && x <= 'z',
        'a' <= y && y <= 'z',
        !text::is_alnum(c) && c != '_',
        !text::is_alnum(d) && d != '_',
    ensures
        squeeze(s.push(x).push(y)) == squeeze(s.push(x)).push(y),
        squeeze(s.push(x).push(c).push(y)) == squeeze(s.push(x)).push('-').push(y),
        squeeze(s.push(x).push(c).push(d).push(y)) == squeeze(s.push(x)).push('-').push(y),
        squeeze(s.push(x)).last() == x,
{
    let a = s.push(x);
    assert(a.drop_last() =~= s);
    assert(a.push(y).drop_last() =~= a);
    assert(a.push(c).drop_last() =~= a);
    assert(a.push(c).push(y).drop_last() =~= a.push(c));
    assert(a.push(c).push(d).drop_last() =~= a.push(c));
    assert(a.push(c).push(d).push(y).drop_last() =~= a.push(c).push(d));
    assert(squeeze(a) == squeeze(s).push(x));
    assert(squeeze(a.push(c)) == squeeze(a).push('-'));
    assert(squeeze(a.push(c)).last() == '-');
    assert(squeeze(a.push(c).push(d)) == squeeze(a.push(c)));
}

/// A new config is for something and has a name that can be applied: it is accepted exactly
/// where a keyboard was picked and the name, white space around it not counted, is valid, and
/// then it goes by that name.
pub proof fn a_new_config_goes_by_the_name_typed(id: Seq<char>, name: Seq<char>)
    ensures
        new_name(id, name) is Ok <==> id.len() > 0 && names::is_valid_name(text::trim(name)),
        new_name(id, name) is Ok ==> new_name(id, name)->Ok_0 == text::trim(name),
        id.len() == 0 ==> new_name(id, name)->Err_0 == "pick a keyboard or “All keyboards”"@,
        id.len() > 0 && new_name(id, name) is Err ==> new_name(id, name)->Err_0
            == "name: letters, digits, '_' or '-' only (max 64)"@,
{
}

/// A new config lives in the directory that it is applied to, under its name with the
/// extension, and a name that is taken is told as such.
pub proof fn a_new_config_lives_where_it_is_applied(
    dir: Seq<char>,
    name: Seq<char>,
    h: InvocationView,
)
    requires
        dir.len() > 0,
        dir.last() != '/',
        names::is_valid_name(name),
    ensures
        config_path_of(dir, name) == dir + "/"@ + name + ".conf"@,
        paths::target_name(config_path_of(dir, name), dir) == Some(name),
        directory_for(None) == "/etc/keyd"@,
        h is Pkexec ==> directory_for(Some(h)) == "/etc/keyd"@,
        h matches InvocationView::Dev { dir: d, .. } ==> directory_for(Some(h)) == d,
        taken_line(name) == name + ".conf already exists — choose another name"@,
{
    reveal_strlit("/");
    reveal_strlit(".conf");
    names::valid_name_stays_in_its_directory(name);
    assert(name.contains(name[0]));
    paths::joining_keeps_absolute_paths(dir, name + ".conf"@);
    assert((name + ".conf"@)[0] == name[0]);
    assert(config_path_of(dir, name) =~= dir + "/"@ + name + ".conf"@);
    paths::a_config_of_the_directory_is_a_target(dir, name);
}

/// The dialog opens on the first keyboard that is offered, with the name suggested for it,
/// and where there is none on all keyboards.
pub proof fn the_first_offer_is_preselected(first: CandidateView, rest: Seq<CandidateView>)
    ensures
        preselected(seq![first] + rest) == (first.devid, first.suggested),
        preselected(Seq::empty()) == ("*"@, "default"@),
{
    assert((seq![first] + rest)[0] == first);
}

/// The banner names the keyboard by its name and id, by its id alone where it has no name,
/// and says of the wildcard that it is for all that are left.
pub proof fn the_banner_names_the_keyboard(id: Seq<char>, device: Seq<char>)
    ensures
        banner_line("*"@, Some(device))
            == "new config — applies to all keyboards not claimed by another config"@,
        banner_line("*"@, None)
            == "new config — applies to all keyboards not claimed by another config"@,
        id != "*"@ && device.len() > 0 ==> banner_line(id, Some(device))
            == "new config — applies to "@ + device + " ("@ + id + ")"@,
        id != "*"@ ==> banner_line(id, None) == "new config — applies to "@ + id,
        id != "*"@ && device.len() == 0 ==> banner_line(id, Some(device))
            == "new config — applies to "@ + id,
{
}

/// The configured keyboards are named, all of them up to four, and of more the first four
/// with how many there are beyond; without any nothing is said.
pub proof fn the_configured_are_named(
    a: Seq<char>,
    b: Seq<char>,
    c: Seq<char>,
    d: Seq<char>,
    more: Seq<Seq<char>>,
)
    ensures
        governed_text(Seq::empty()).len() == 0,
        governed_text(seq![a]) == "Already configured — edit from the chooser above: "@ + a,
        governed_text(seq![a, b, c, d]) == "Already configured — edit from the chooser above: "@ + (
        a + ", "@ + b + ", "@ + c + ", "@ + d),
        more.len() > 0 ==> governed_text(seq![a, b, c, d] + more)
            == "Already configured — edit from the chooser above: "@ + (a + ", "@ + b + ", "@ + c
            + ", "@ + d) + (" (+"@ + text::decimal(more.len()) + " more)"@),
{
    reveal_with_fuel(text::join, 5);
    assert(seq![a, b].drop_last() =~= seq![a]);
    assert(seq![a, b, c].drop_last() =~= seq![a, b]);
    assert(seq![a, b, c, d].drop_last() =~= seq![a, b, c]);
    let all = seq![a, b, c, d] + more;
    assert(all.subrange(0, 4) =~= seq![a, b, c, d]);
    let lead = "Already configured — edit from the chooser above: "@;
    assert(lead + a + Seq::<char>::empty() =~= lead + a);
    let four = a + ", "@ + b + ", "@ + c + ", "@ + d;
    assert(lead + four + Seq::<char>::empty() =~= lead + four);
}

} // verus!
