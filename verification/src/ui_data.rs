//! What is shown of a sheet: colours, caps, boards and id tags.

use crate::paths;
use crate::strings;
use crate::text;
use vstd::prelude::*;

verus! {

// ---------------------------------------------------------------------------
// Colours
// ---------------------------------------------------------------------------

/// A colour.
#[derive(Debug, Clone, Copy, PartialEq, Eq, Structural)]
pub struct Rgb {
    pub red: u8,
    pub green: u8,
    pub blue: u8,
}

/// `s` without the hash signs at its front.
pub open spec fn unhash(s: Seq<char>) -> Seq<char>
    decreases s.len(),
{
    if s.len() > 0 && s[0] == '#' {
        unhash(s.subrange(1, s.len() as int))
    } else {
        s
    }
}

/// Black.
pub open spec fn black() -> Rgb {
    Rgb { red: 0, green: 0, blue: 0 }
}

/// The number that two hexadecimal digits write.
pub open spec fn hex_pair(a: char, b: char) -> u8 {
    (text::digit_value(a, 16)->0 * 16 + text::digit_value(b, 16)->0) as u8
}

/// The colour of `#rrggbb`, black for anything else.
pub open spec fn color_of(s: Seq<char>) -> Rgb {
    let d = unhash(s);
    if d.len() == 6 && text::all_digits(d, 16) {
        Rgb {
            red: hex_pair(d[0], d[1]),
            green: hex_pair(d[2], d[3]),
            blue: hex_pair(d[4], d[5]),
        }
    } else {
        black()
    }
}

/// The number that two hexadecimal digits write.
fn pair(a: char, b: char) -> (r: Option<u8>)
    ensures
        match r {
            Some(v) => text::digit_value(a, 16) is Some && text::digit_value(b, 16) is Some && v
                == hex_pair(a, b),
            None => text::digit_value(a, 16) is None || text::digit_value(b, 16) is None,
        },
{
    match strings::digit_value(a, 16) {
        None => None,
        Some(x) => match strings::digit_value(b, 16) {
            None => None,
            Some(y) => Some((x * 16 + y) as u8),
        },
    }
}

/// The colour of `#rrggbb`; the hash is optional, and anything malformed is black.
pub fn hex(s: &str) -> (r: Rgb)
    ensures
        r == color_of(s@),
{
    let v = strings::chars(s);
    let mut a: usize = 0;
    assert(s@.subrange(0, s@.len() as int) =~= s@);
    while a < v.len() && v[a] == '#'
        invariant
            a <= v@.len(),
            v@ == s@,
            unhash(s@) == unhash(s@.subrange(a as int, s@.len() as int)),
        decreases v.len() - a,
    {
        assert(s@.subrange(a as int, s@.len() as int).subrange(1, s@.len() - a) =~= s@.subrange(
            a + 1,
            s@.len() as int,
        ));
        a = a + 1;
    }
    let ghost d = s@.subrange(a as int, s@.len() as int);
    assert(unhash(s@) == d);
    if v.len() - a != 6 {
        return Rgb { red: 0, green: 0, blue: 0 };
    }
    assert(forall|i: int| 0 <= i < 6 ==> d[i] == v@[a + i]);
    match (pair(v[a], v[a + 1]), pair(v[a + 2], v[a + 3]), pair(v[a + 4], v[a + 5])) {
        (Some(red), Some(green), Some(blue)) => {
            assert(text::all_digits(d, 16));
            Rgb { red, green, blue }
        },
        _ => {
            assert(!text::all_digits(d, 16)) by {
                if text::all_digits(d, 16) {
                    assert(text::digit_value(d[0], 16) is Some);
                    assert(text::digit_value(d[1], 16) is Some);
                    assert(text::digit_value(d[2], 16) is Some);
                    assert(text::digit_value(d[3], 16) is Some);
                    assert(text::digit_value(d[4], 16) is Some);
                    assert(text::digit_value(d[5], 16) is Some);
                }
            }
            Rgb { red: 0, green: 0, blue: 0 }
        },
    }
}

// ---------------------------------------------------------------------------
// Caps
// ---------------------------------------------------------------------------

/// How a cap is drawn.
#[derive(Debug, Clone, Copy, PartialEq, Eq, Structural)]
pub enum KeyState {
    Normal,
    Dim,
    Hold,
}

/// A small text on a cap, with its colour.
#[derive(Debug, PartialEq, Eq)]
pub struct Badge {
    pub text: String,
    pub color: String,
}

/// A cap of the board, without its geometry.
#[derive(Debug)]
pub struct KeyCap {
    pub key: String,
    pub phys: String,
    pub label: String,
    pub emphasized: bool,
    pub ghost_label: String,
    pub accent: String,
    pub state: KeyState,
    pub badge_left: Option<Badge>,
    pub badge_right: Option<Badge>,
}

/// What is shown of a cap, without its geometry.
#[derive(Debug, PartialEq, Eq)]
pub struct KeyCapData {
    pub key: String,
    pub phys: String,
    pub label: String,
    pub emphasized: bool,
    pub ghost_label: String,
    pub has_accent: bool,
    pub accent: Rgb,
    pub state: i32,
    pub pressed: bool,
    pub chord_pick: bool,
    pub badge_left: String,
    pub badge_left_color: Rgb,
    pub has_badge_left: bool,
    pub badge_right: String,
    pub badge_right_color: Rgb,
    pub has_badge_right: bool,
}

/// The text of an optional badge.
pub open spec fn badge_text(b: Option<Badge>) -> Seq<char> {
    match b {
        Some(x) => x.text@,
        None => Seq::empty(),
    }
}

/// The colour of an optional badge; none is black.
pub open spec fn badge_color(b: Option<Badge>) -> Rgb {
    match b {
        Some(x) => color_of(x.color@),
        None => black(),
    }
}

/// The number of a state.
pub open spec fn state_number(s: KeyState) -> int {
    match s {
        KeyState::Normal => 0,
        KeyState::Dim => 1,
        KeyState::Hold => 2,
    }
}

/// The text and colour of an optional badge.
fn badge_of(b: &Option<Badge>) -> (r: (String, Rgb))
    ensures
        r.0@ == badge_text(*b),
        r.1 == badge_color(*b),
{
    match b {
        Some(x) => (strings::copy(x.text.as_str()), hex(x.color.as_str())),
        None => (String::new(), Rgb { red: 0, green: 0, blue: 0 }),
    }
}

/// `r` is what is shown of the cap `k`, which is neither pressed nor picked yet.
pub open spec fn shows_cap(r: KeyCapData, k: KeyCap) -> bool {
    &&& r.key@ == k.key@
    &&& r.phys@ == k.phys@
    &&& r.label@ == k.label@
    &&& r.emphasized == k.emphasized
    &&& r.ghost_label@ == k.ghost_label@
    &&& r.has_accent == (k.accent@.len() > 0)
    &&& r.accent == color_of(k.accent@)
    &&& r.state == state_number(k.state)
    &&& !r.pressed
    &&& !r.chord_pick
    &&& r.badge_left@ == badge_text(k.badge_left)
    &&& r.badge_left_color == badge_color(k.badge_left)
    &&& r.has_badge_left == (k.badge_left is Some)
    &&& r.badge_right@ == badge_text(k.badge_right)
    &&& r.badge_right_color == badge_color(k.badge_right)
    &&& r.has_badge_right == (k.badge_right is Some)
}

/// What is shown of a cap. It is neither pressed nor picked yet.
pub fn to_keycap(k: &KeyCap) -> (r: KeyCapData)
    ensures
        shows_cap(r, *k),
{
    let (badge_left, badge_left_color) = badge_of(&k.badge_left);
    let (badge_right, badge_right_color) = badge_of(&k.badge_right);
    let state: i32 = match k.state {
        KeyState::Normal => 0,
        KeyState::Dim => 1,
        KeyState::Hold => 2,
    };
    KeyCapData {
        key: strings::copy(k.key.as_str()),
        phys: strings::copy(k.phys.as_str()),
        label: strings::copy(k.label.as_str()),
        emphasized: k.emphasized,
        ghost_label: strings::copy(k.ghost_label.as_str()),
        has_accent: !k.accent.as_str().is_empty(),
        accent: hex(k.accent.as_str()),
        state,
        pressed: false,
        chord_pick: false,
        badge_left,
        badge_left_color,
        has_badge_left: k.badge_left.is_some(),
        badge_right,
        badge_right_color,
        has_badge_right: k.badge_right.is_some(),
    }
}

// ---------------------------------------------------------------------------
// Sheets
// ---------------------------------------------------------------------------

/// An entry of `[ids]`, and whether a connected keyboard is the one it names.
#[derive(Debug, PartialEq, Eq)]
pub struct IdTag {
    pub text: String,
    pub matched: bool,
}

pub struct IdTagView {
    pub text: Seq<char>,
    pub matched: bool,
}

impl View for IdTag {
    type V = IdTagView;

    open spec fn view(&self) -> IdTagView {
        IdTagView { text: self.text@, matched: self.matched }
    }
}

/// An `[ids]` entry refers to the concrete id: it is that id, with or without one of
/// keyd's type prefixes.
pub open spec fn refers_to(config_id: Seq<char>, devid: Seq<char>) -> bool {
    config_id == devid || text::ends_with(config_id, devid)
}

/// Whether an `[ids]` entry refers to a concrete `vendor:product`. Wildcards never name a
/// specific device, so they stay without highlight.
pub fn id_matches(config_id: &str, devid: &str) -> (r: bool)
    ensures
        r == refers_to(config_id@, devid@),
{
    strings::same(config_id, devid) || strings::ends_with(config_id, devid)
}

/// Some of the connected ids is referred to.
pub open spec fn any_matched(config_id: Seq<char>, matched: Seq<Seq<char>>) -> bool {
    exists|i: int| 0 <= i < matched.len() && refers_to(config_id, #[trigger] matched[i])
}

/// The tags of the `[ids]` entries.
pub open spec fn tags_of(ids: Seq<Seq<char>>, matched: Seq<Seq<char>>) -> Seq<IdTagView> {
    Seq::new(
        ids.len(),
        |i: int| IdTagView { text: ids[i], matched: any_matched(ids[i], matched) },
    )
}

/// What is shown of a sheet, without its boards.
#[derive(Debug)]
pub struct SheetData {
    pub name: String,
    pub path: String,
    pub profile: String,
    pub id_tags: Vec<IdTag>,
    pub device: String,
    pub layout_id: String,
}

/// The name of a sheet: that of its file, or the whole source where it has none.
pub open spec fn sheet_name(source: Seq<char>) -> Seq<char> {
    match paths::file_name(source) {
        Some(f) => f,
        None => source,
    }
}

/// Whether some of the connected ids is referred to.
fn is_matched(config_id: &str, matched: &Vec<String>) -> (r: bool)
    ensures
        r == any_matched(config_id@, text::texts(matched@)),
{
    let ghost mv = text::texts(matched@);
    let mut i: usize = 0;
    while i < matched.len()
        invariant
            i <= matched@.len(),
            mv == text::texts(matched@),
            forall|j: int| 0 <= j < i ==> !refers_to(config_id@, #[trigger] mv[j]),
        decreases matched.len() - i,
    {
        assert(mv[i as int] == matched@[i as int]@);
        if id_matches(config_id, matched[i].as_str()) {
            return true;
        }
        i = i + 1;
    }
    false
}

/// What is shown of a sheet: its file's name, and which of its ids is plugged in.
pub fn to_sheet_data(
    source: &str,
    profile: &str,
    ids: &Vec<String>,
    device: &str,
    layout_id: &str,
    matched_ids: &Vec<String>,
) -> (r: SheetData)
    ensures
        r.name@ == sheet_name(source@),
        r.path@ == source@,
        r.profile@ == profile@,
        text::views(r.id_tags@) == tags_of(text::texts(ids@), text::texts(matched_ids@)),
        r.device@ == device@,
        r.layout_id@ == layout_id@,
{
    let ghost iv = text::texts(ids@);
    let ghost mv = text::texts(matched_ids@);
    let mut tags: Vec<IdTag> = Vec::new();
    let mut i: usize = 0;
    while i < ids.len()
        invariant
            i <= ids@.len(),
            iv == text::texts(ids@),
            mv == text::texts(matched_ids@),
            tags@.len() == i,
            forall|j: int|
                0 <= j < i ==> #[trigger] tags@[j]@ == (IdTagView {
                    text: iv[j],
                    matched: any_matched(iv[j], mv),
                }),
        decreases ids.len() - i,
    {
        assert(iv[i as int] == ids@[i as int]@);
        tags.push(
            IdTag {
                text: strings::copy(ids[i].as_str()),
                matched: is_matched(ids[i].as_str(), matched_ids),
            },
        );
        i = i + 1;
    }
    assert(text::views(tags@) =~= tags_of(iv, mv));
    let name = match paths::file_name_of(source) {
        Some(f) => f,
        None => strings::copy(source),
    };
    SheetData {
        name,
        path: strings::copy(source),
        profile: strings::copy(profile),
        id_tags: tags,
        device: strings::copy(device),
        layout_id: strings::copy(layout_id),
    }
}

/// The accent of a board, and whether it has one.
pub fn board_accent(accent: &str) -> (r: (bool, Rgb))
    ensures
        r.0 == (accent@.len() > 0),
        r.1 == color_of(accent@),
{
    (!accent.is_empty(), hex(accent))
}

/// Whatever the text, a colour that is not six hexadecimal digits behind its hash signs
/// is black; so is an empty one.
pub proof fn malformed_is_black(s: Seq<char>)
    requires
        unhash(s).len() != 6 || !text::all_digits(unhash(s), 16),
    ensures
        color_of(s) == black(),
{
}

/// The bare wildcard refers to no `vendor:product` of a device.
pub proof fn wildcard_names_no_device(devid: Seq<char>)
    requires
        devid.contains(':'),
    ensures
        !refers_to("*"@, devid),
{
    reveal_strlit("*");
    let i = choose|i: int| 0 <= i < devid.len() && devid[i] == ':';
    if text::ends_with("*"@, devid) {
        assert("*"@.subrange("*"@.len() - devid.len(), "*"@.len() as int)[i] == devid[i]);
    }
}

proof fn pair_is_numeral(d: Seq<char>, i: int)
    requires
        0 <= i,
        i + 2 <= d.len(),
        text::all_digits(d, 16),
    ensures
        hex_pair(d[i], d[i + 1]) as nat == text::numeral_value(d.subrange(i, i + 2), 16),
{
    let s = d.subrange(i, i + 2);
    reveal_with_fuel(text::numeral_value, 3);
    assert(s.drop_last().drop_last() =~= Seq::<char>::empty());
    assert(s.last() == d[i + 1]);
    assert(s.drop_last().last() == d[i]);
    assert(text::digit_value(d[i], 16) is Some && text::digit_value(d[i + 1], 16) is Some);
}

/// Six hexadecimal digits write the red, the green and the blue of a colour, two for each,
/// with or without a hash in front.
pub proof fn a_colour_is_read_by_its_digits(d: Seq<char>)
    requires
        d.len() == 6,
        text::all_digits(d, 16),
    ensures
        color_of(d).red as nat == text::numeral_value(d.subrange(0, 2), 16),
        color_of(d).green as nat == text::numeral_value(d.subrange(2, 4), 16),
        color_of(d).blue as nat == text::numeral_value(d.subrange(4, 6), 16),
        color_of(seq!['#'] + d) == color_of(d),
{
    assert(text::digit_value(d[0], 16) is Some);
    assert(unhash(d) == d);
    let h = seq!['#'] + d;
    assert(h.subrange(1, h.len() as int) =~= d);
    assert(h[0] == '#');
    pair_is_numeral(d, 0);
    pair_is_numeral(d, 2);
    pair_is_numeral(d, 4);
}

/// A cap is shown as it is: by its own texts, with an accent and badges where it has them,
/// in their own colours, the left one left and the right one right; its states are told
/// apart.
pub proof fn a_cap_is_shown_as_it_is(r: KeyCapData, k: KeyCap)
    requires
        shows_cap(r, k),
    ensures
        r.key@ == k.key@ && r.phys@ == k.phys@ && r.label@ == k.label@ && r.ghost_label@
            == k.ghost_label@,
        r.emphasized == k.emphasized,
        !r.pressed && !r.chord_pick,
        r.has_accent <==> k.accent@.len() > 0,
        r.has_accent ==> r.accent == color_of(k.accent@),
        k.state == KeyState::Normal ==> r.state == 0,
        k.state == KeyState::Dim ==> r.state == 1,
        k.state == KeyState::Hold ==> r.state == 2,
        k.badge_left matches Some(b) ==> r.has_badge_left && r.badge_left@ == b.text@
            && r.badge_left_color == color_of(b.color@),
        k.badge_left is None ==> !r.has_badge_left && r.badge_left@.len() == 0,
        k.badge_right matches Some(b) ==> r.has_badge_right && r.badge_right@ == b.text@
            && r.badge_right_color == color_of(b.color@),
        k.badge_right is None ==> !r.has_badge_right && r.badge_right@.len() == 0,
{
}

/// Every entry has its tag in its place, and is highlighted exactly where a connected id is
/// the entry itself or what stands behind a prefix in it.
pub proof fn a_tag_is_lit_for_its_keyboard(ids: Seq<Seq<char>>, matched: Seq<Seq<char>>, i: int)
    requires
        0 <= i < ids.len(),
    ensures
        tags_of(ids, matched).len() == ids.len(),
        tags_of(ids, matched)[i].text == ids[i],
        tags_of(ids, matched)[i].matched <==> exists|k: int, p: Seq<char>|
            0 <= k < matched.len() && #[trigger] (p + matched[k]) == ids[i],
{
    let id = ids[i];
    if any_matched(id, matched) {
        let k = choose|k: int| 0 <= k < matched.len() && refers_to(id, #[trigger] matched[k]);
        let m = matched[k];
        assert(Seq::<char>::empty() + m =~= m);
        if id != m {
            let p = id.subrange(0, id.len() - m.len());
            assert(p + id.subrange(id.len() - m.len(), id.len() as int) =~= id);
            assert(p + matched[k] == id);
        } else {
            assert(Seq::<char>::empty() + matched[k] == id);
        }
    }
    if exists|k: int, p: Seq<char>| 0 <= k < matched.len() && #[trigger] (p + matched[k]) == id {
        let (k, p) = choose|k: int, p: Seq<char>|
            0 <= k < matched.len() && #[trigger] (p + matched[k]) == id;
        let m = matched[k];
        assert((p + m).subrange(p.len() as int, (p + m).len() as int) =~= m);
        assert(text::ends_with(id, m));
        assert(refers_to(id, matched[k]));
    }
}

/// A sheet is called by the name of its file, whatever directory that is in.
pub proof fn a_sheet_is_called_by_its_file(dir: Seq<char>, file: Seq<char>)
    requires
        file.len() > 0,
        !file.contains('/'),
        file != "."@,
        file != ".."@,
    ensures
        sheet_name(paths::join(dir, file)) == file,
{
    paths::file_in_directory(dir, file);
}

} // verus!
