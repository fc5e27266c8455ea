//! Edit-mode session: what may be edited, where an edit lands, and what a change amounts
//! to.
//!
//! A config is edited through a line-faithful model of its file. A session holds what its
//! decisions read of that model: the sections with their bindings, the text they
//! serialize to, and whether it was edited. Each edit is decided here, as an [`Edit`] to
//! make on the model or the reason why not; the session is then given the model as it is
//! after the edit.

use crate::diff;
use crate::drafts;
use crate::drafts::DraftSaved;
use crate::paths;
use crate::strings;
use crate::text;
use vstd::prelude::*;

verus! {

// ---------------------------------------------------------------------------
// The model
// ---------------------------------------------------------------------------

/// What a section of a config is.
#[derive(Debug, Clone, Copy, PartialEq, Eq, Structural)]
pub enum SectionKind {
    Main,
    Layer,
    Composite,
    Other,
}

/// A binding line.
#[derive(Debug)]
pub struct Entry {
    pub key: String,
    /// What stands behind the `=`; none for a line without one.
    pub val: Option<String>,
    /// The order-independent spelling of the key where it is a chord.
    pub chord: Option<String>,
}

pub struct EntryView {
    pub key: Seq<char>,
    pub val: Option<Seq<char>>,
    pub chord: Option<Seq<char>>,
}

impl View for Entry {
    type V = EntryView;

    open spec fn view(&self) -> EntryView {
        EntryView {
            key: self.key@,
            val: text::opt(self.val),
            chord: text::opt(self.chord),
        }
    }
}

/// What a section binds a key to.
#[derive(Debug)]
pub struct Bound {
    pub key: String,
    pub val: String,
}

pub struct BoundView {
    pub key: Seq<char>,
    pub val: Seq<char>,
}

impl View for Bound {
    type V = BoundView;

    open spec fn view(&self) -> BoundView {
        BoundView { key: self.key@, val: self.val@ }
    }
}

/// A section: its base name (that before a modifier suffix), its binding lines in file
/// order, and what each of its keys is bound to.
#[derive(Debug)]
pub struct Section {
    pub kind: SectionKind,
    pub base: String,
    pub entries: Vec<Entry>,
    pub bound: Vec<Bound>,
}

pub struct SectionView {
    pub kind: SectionKind,
    pub base: Seq<char>,
    pub entries: Seq<EntryView>,
    pub bound: Seq<BoundView>,
}

impl View for Section {
    type V = SectionView;

    open spec fn view(&self) -> SectionView {
        SectionView {
            kind: self.kind,
            base: self.base@,
            entries: text::views(self.entries@),
            bound: text::views(self.bound@),
        }
    }
}

/// What the decisions read of the model of a config.
#[derive(Debug)]
pub struct Model {
    pub sections: Vec<Section>,
    /// The binding lines of the `[global]` section; none where there is no such section.
    pub global: Option<Vec<Entry>>,
    /// The bindings that point at a layer, in file order.
    pub uses: Vec<Reference>,
    /// Those of them whose layer the config does not define.
    pub orphans: Vec<Reference>,
    /// What the model serializes to.
    pub text: String,
    /// The model was edited since it was made.
    pub edited: bool,
}

/// A section shows on a board.
pub open spec fn on_board(kind: SectionKind) -> bool {
    kind is Main || kind is Layer || kind is Composite
}

/// The section belongs to the layer: `main` names the base, any other name its layer or
/// composite sections, however they are qualified.
pub open spec fn serves(s: SectionView, layer: Seq<char>) -> bool {
    if layer == "main"@ {
        s.kind is Main
    } else {
        (s.kind is Layer || s.kind is Composite) && text::trim(s.base) == layer
    }
}

/// Whether the section belongs to the layer.
pub fn section_is_layer(section: &Section, layer: &str) -> (r: bool)
    ensures
        r == serves(section@, layer@),
{
    if strings::same(layer, "main") {
        matches!(section.kind, SectionKind::Main)
    } else {
        matches!(section.kind, SectionKind::Layer | SectionKind::Composite) && strings::same(
            strings::trim(section.base.as_str()).as_str(),
            layer,
        )
    }
}

// ---------------------------------------------------------------------------
// View-only configs
// ---------------------------------------------------------------------------

/// Why a config can't be opened for editing (it remains viewable).
#[derive(Debug, PartialEq, Eq)]
pub enum ViewOnly {
    /// The file couldn't be read, or isn't UTF-8.
    Unreadable(String),
    /// The model doesn't reproduce the file byte for byte.
    RoundTripGate,
    /// keyd itself would reject the file.
    KeydRejects(String),
}

pub enum ViewOnlyView {
    Unreadable(Seq<char>),
    RoundTripGate,
    KeydRejects(Seq<char>),
}

impl View for ViewOnly {
    type V = ViewOnlyView;

    open spec fn view(&self) -> ViewOnlyView {
        match self {
            ViewOnly::Unreadable(e) => ViewOnlyView::Unreadable(e@),
            ViewOnly::RoundTripGate => ViewOnlyView::RoundTripGate,
            ViewOnly::KeydRejects(w) => ViewOnlyView::KeydRejects(w@),
        }
    }
}

/// The reason in words.
pub open spec fn why(v: ViewOnlyView) -> Seq<char> {
    match v {
        ViewOnlyView::Unreadable(e) => "can't read config: "@ + e,
        ViewOnlyView::RoundTripGate => "view-only: this file can't be reproduced byte-for-byte"@,
        ViewOnlyView::KeydRejects(w) => "view-only: "@ + w,
    }
}

impl ViewOnly {
    /// The reason in words.
    pub fn describe(&self) -> (r: String)
        ensures
            r@ == why(self@),
    {
        match self {
            ViewOnly::Unreadable(e) => strings::cat("can't read config: ", e.as_str()),
            ViewOnly::RoundTripGate => strings::copy(
                "view-only: this file can't be reproduced byte-for-byte",
            ),
            ViewOnly::KeydRejects(w) => strings::cat("view-only: ", w.as_str()),
        }
    }
}

/// The first diagnostic that says that keyd rejects the file.
pub open spec fn first_rejection(diagnostics: Seq<Seq<char>>) -> Option<Seq<char>>
    decreases diagnostics.len(),
{
    if diagnostics.len() == 0 {
        None
    } else if text::has_part(diagnostics[0], "rejects"@) {
        Some(diagnostics[0])
    } else {
        first_rejection(diagnostics.skip(1))
    }
}

/// Why a text may not be edited: the model must reproduce it, and keyd must not reject
/// it.
pub open spec fn gate_of(round_trips: bool, diagnostics: Seq<Seq<char>>) -> Option<ViewOnlyView> {
    if !round_trips {
        Some(ViewOnlyView::RoundTripGate)
    } else {
        match first_rejection(diagnostics) {
            Some(w) => Some(ViewOnlyView::KeydRejects(w)),
            None => None,
        }
    }
}

/// What keeps a text with these findings view-only, if anything does.
pub fn gate(round_trips: bool, diagnostics: &Vec<String>) -> (r: Option<ViewOnly>)
    ensures
        (match r {
            Some(v) => Some(v@),
            None => None,
        }) == gate_of(round_trips, text::texts(diagnostics@)),
{
    if !round_trips {
        return Some(ViewOnly::RoundTripGate);
    }
    let ghost all = text::texts(diagnostics@);
    let mut i: usize = 0;
    assert(all.skip(0) =~= all);
    while i < diagnostics.len()
        invariant
            i <= diagnostics@.len(),
            round_trips,
            all == text::texts(diagnostics@),
            first_rejection(all.skip(i as int)) == first_rejection(all),
        decreases diagnostics.len() - i,
    {
        assert(all.skip(i as int)[0] == diagnostics@[i as int]@);
        if strings::has_part(diagnostics[i].as_str(), "rejects") {
            return Some(ViewOnly::KeydRejects(strings::copy(diagnostics[i].as_str())));
        }
        assert(all.skip(i as int).skip(1) =~= all.skip(i + 1));
        i = i + 1;
    }
    None
}

// ---------------------------------------------------------------------------
// Edits
// ---------------------------------------------------------------------------

/// An edit to make on the model.
#[derive(Debug, PartialEq, Eq)]
pub enum Edit {
    /// Bind a key in the section that takes the layer's bindings, adding the line where
    /// there is none.
    Bind { layer: String, key: String, val: String },
    /// Change the value of a line that is there.
    Rewrite { layer: String, key: String, val: String },
    /// Remove the key's binding from every section of the layer's board.
    Unbind { layer: String, key: String },
    /// Remove a key's lines from one section.
    Remove { section: usize, key: String },
    /// Set a `[global]` option, making the section where there is none.
    SetGlobal { name: String, val: String },
    /// Remove a `[global]` option.
    ClearGlobal { name: String },
}

pub enum EditView {
    Bind { layer: Seq<char>, key: Seq<char>, val: Seq<char> },
    Rewrite { layer: Seq<char>, key: Seq<char>, val: Seq<char> },
    Unbind { layer: Seq<char>, key: Seq<char> },
    Remove { section: nat, key: Seq<char> },
    SetGlobal { name: Seq<char>, val: Seq<char> },
    ClearGlobal { name: Seq<char> },
}

impl View for Edit {
    type V = EditView;

    open spec fn view(&self) -> EditView {
        match self {
            Edit::Bind { layer, key, val } => EditView::Bind {
                layer: layer@,
                key: key@,
                val: val@,
            },
            Edit::Rewrite { layer, key, val } => EditView::Rewrite {
                layer: layer@,
                key: key@,
                val: val@,
            },
            Edit::Unbind { layer, key } => EditView::Unbind { layer: layer@, key: key@ },
            Edit::Remove { section, key } => EditView::Remove { section: *section as nat, key: key@ },
            Edit::SetGlobal { name, val } => EditView::SetGlobal { name: name@, val: val@ },
            Edit::ClearGlobal { name } => EditView::ClearGlobal { name: name@ },
        }
    }
}

/// A decided edit, or the reason against it.
pub open spec fn decided(r: Result<Edit, String>) -> Result<EditView, Seq<char>> {
    match r {
        Ok(e) => Ok(e@),
        Err(m) => Err(m@),
    }
}

/// A text, or the reason why there is none.
pub open spec fn named(r: Result<String, String>) -> Result<Seq<char>, Seq<char>> {
    match r {
        Ok(n) => Ok(n@),
        Err(m) => Err(m@),
    }
}

/// The config has no section for the layer.
pub open spec fn no_section(layer: Seq<char>) -> Seq<char> {
    "this config has no ["@ + layer + "] section"@
}

fn no_section_text(layer: &str) -> (r: String)
    ensures
        r@ == no_section(layer@),
{
    strings::cat3("this config has no [", layer, "] section")
}

/// The base names of the sections that show on a board, in file order, each once.
pub open spec fn editable(sections: Seq<SectionView>) -> Seq<Seq<char>>
    decreases sections.len(),
{
    if sections.len() == 0 {
        Seq::empty()
    } else {
        let before = editable(sections.drop_last());
        let base = text::trim(sections.last().base);
        if on_board(sections.last().kind) && base.len() > 0 && !before.contains(base) {
            before.push(base)
        } else {
            before
        }
    }
}

/// What a key is bound to among a section's bindings.
pub open spec fn value_of(bound: Seq<BoundView>, key: Seq<char>) -> Option<Seq<char>>
    decreases bound.len(),
{
    if bound.len() == 0 {
        None
    } else if bound[0].key == key {
        Some(bound[0].val)
    } else {
        value_of(bound.skip(1), key)
    }
}

/// What a key is bound to on the layer's board: the last section that binds it wins.
pub open spec fn binding_in(
    sections: Seq<SectionView>,
    layer: Seq<char>,
    key: Seq<char>,
) -> Option<Seq<char>>
    decreases sections.len(),
{
    if sections.len() == 0 {
        None
    } else {
        let s = sections.last();
        let here = if on_board(s.kind) && text::trim(s.base) == layer {
            value_of(s.bound, key)
        } else {
            None
        };
        if here is Some {
            here
        } else {
            binding_in(sections.drop_last(), layer, key)
        }
    }
}

/// A binding under the name by which later ones of the same name replace it.
#[derive(Debug, PartialEq, Eq)]
pub struct Setting {
    pub key: String,
    pub id: String,
    pub val: String,
}

pub struct SettingView {
    pub key: Seq<char>,
    pub id: Seq<char>,
    pub val: Seq<char>,
}

impl View for Setting {
    type V = SettingView;

    open spec fn view(&self) -> SettingView {
        SettingView { key: self.key@, id: self.id@, val: self.val@ }
    }
}

/// The settings that do not go by the name.
pub open spec fn without(list: Seq<SettingView>, id: Seq<char>) -> Seq<SettingView>
    decreases list.len(),
{
    if list.len() == 0 {
        Seq::empty()
    } else {
        let before = without(list.drop_last(), id);
        if list.last().id == id {
            before
        } else {
            before.push(list.last())
        }
    }
}

/// The settings with one more: it replaces those of its name.
pub open spec fn put(list: Seq<SettingView>, one: SettingView) -> Seq<SettingView> {
    without(list, one.id).push(one)
}

/// The settings and then the chords among the lines.
pub open spec fn put_chords(list: Seq<SettingView>, entries: Seq<EntryView>) -> Seq<SettingView>
    decreases entries.len(),
{
    if entries.len() == 0 {
        list
    } else {
        let before = put_chords(list, entries.drop_last());
        let e = entries.last();
        match (e.chord, e.val) {
            (Some(c), Some(v)) => put(before, SettingView { key: e.key, id: c, val: v }),
            _ => before,
        }
    }
}

/// The chords of the layer: as they are spelled, with their actions; of those that
/// differ only in the order of their keys the last.
pub open spec fn chords_in(sections: Seq<SectionView>, layer: Seq<char>) -> Seq<SettingView>
    decreases sections.len(),
{
    if sections.len() == 0 {
        Seq::empty()
    } else {
        let before = chords_in(sections.drop_last(), layer);
        if serves(sections.last(), layer) {
            put_chords(before, sections.last().entries)
        } else {
            before
        }
    }
}

/// The options among the lines: of those with the same name the last.
pub open spec fn options_in(entries: Seq<EntryView>) -> Seq<SettingView>
    decreases entries.len(),
{
    if entries.len() == 0 {
        Seq::empty()
    } else {
        let before = options_in(entries.drop_last());
        let e = entries.last();
        match e.val {
            Some(v) => put(before, SettingView { key: e.key, id: e.key, val: v }),
            None => before,
        }
    }
}

/// The options that are set, of the section if there is one.
pub open spec fn options_of(global: Option<Vec<Entry>>) -> Seq<SettingView> {
    match global {
        Some(entries) => options_in(text::views(entries@)),
        None => Seq::empty(),
    }
}

/// The settings with one more, which replaces those of its name.
fn put_setting(list: Vec<Setting>, one: Setting) -> (r: Vec<Setting>)
    ensures
        text::views(r@) == put(text::views(list@), one@),
{
    let ghost all = text::views(list@);
    let mut r: Vec<Setting> = Vec::new();
    let mut i: usize = 0;
    assert(text::views(r@) =~= without(all.subrange(0, 0), one@.id));
    while i < list.len()
        invariant
            i <= list@.len(),
            all == text::views(list@),
            text::views(r@) == without(all.subrange(0, i as int), one@.id),
        decreases list.len() - i,
    {
        let ghost next = all.subrange(0, i + 1);
        let ghost before = text::views(r@);
        assert(next.drop_last() =~= all.subrange(0, i as int));
        assert(next.last() == list@[i as int]@);
        if !strings::same(list[i].id.as_str(), one.id.as_str()) {
            let kept = Setting {
                key: strings::copy(list[i].key.as_str()),
                id: strings::copy(list[i].id.as_str()),
                val: strings::copy(list[i].val.as_str()),
            };
            r.push(kept);
            assert(text::views(r@) =~= before.push(next.last()));
        }
        i = i + 1;
    }
    assert(all.subrange(0, i as int) =~= all);
    let ghost before = text::views(r@);
    let ghost last = one@;
    r.push(one);
    assert(text::views(r@) =~= before.push(last));
    r
}

/// The settings and then the chords among the lines.
fn add_chords(list: Vec<Setting>, entries: &Vec<Entry>) -> (r: Vec<Setting>)
    ensures
        text::views(r@) == put_chords(text::views(list@), text::views(entries@)),
{
    let ghost start = text::views(list@);
    let ghost all = text::views(entries@);
    let mut r = list;
    let mut i: usize = 0;
    assert(put_chords(start, all.subrange(0, 0)) == start);
    while i < entries.len()
        invariant
            i <= entries@.len(),
            all == text::views(entries@),
            text::views(r@) == put_chords(start, all.subrange(0, i as int)),
        decreases entries.len() - i,
    {
        let ghost next = all.subrange(0, i + 1);
        assert(next.drop_last() =~= all.subrange(0, i as int));
        assert(next.last() == entries@[i as int]@);
        match (&entries[i].chord, &entries[i].val) {
            (Some(c), Some(v)) => {
                let one = Setting {
                    key: strings::copy(entries[i].key.as_str()),
                    id: strings::copy(c.as_str()),
                    val: strings::copy(v.as_str()),
                };
                r = put_setting(r, one);
            },
            _ => {},
        }
        i = i + 1;
    }
    assert(all.subrange(0, i as int) =~= all);
    r
}

/// Some line of the `[global]` section is for the option.
pub open spec fn sets_option(global: Option<Vec<Entry>>, name: Seq<char>) -> bool {
    match global {
        None => false,
        Some(entries) => exists|k: int|
            0 <= k < entries@.len() && (#[trigger] entries@[k])@.key == name,
    }
}

/// The lines with this chord, as edits that remove them from the section.
pub open spec fn removals(entries: Seq<EntryView>, chord: Seq<char>, section: nat) -> Seq<EditView>
    decreases entries.len(),
{
    if entries.len() == 0 {
        Seq::empty()
    } else {
        let before = removals(entries.drop_last(), chord, section);
        if entries.last().chord == Some(chord) {
            before.push(EditView::Remove { section, key: entries.last().key })
        } else {
            before
        }
    }
}

/// The edits that remove the chord, however it is spelled, from every section of the
/// layer.
pub open spec fn all_removals(
    sections: Seq<SectionView>,
    layer: Seq<char>,
    chord: Seq<char>,
) -> Seq<EditView>
    decreases sections.len(),
{
    if sections.len() == 0 {
        Seq::empty()
    } else {
        let before = all_removals(sections.drop_last(), layer, chord);
        if serves(sections.last(), layer) {
            before + removals(sections.last().entries, chord, (sections.len() - 1) as nat)
        } else {
            before
        }
    }
}

/// Some section belongs to the layer.
pub open spec fn has_section(sections: Seq<SectionView>, layer: Seq<char>) -> bool {
    exists|i: int| 0 <= i < sections.len() && serves(#[trigger] sections[i], layer)
}

/// The lines with this chord, as edits that remove them.
fn remove_from(entries: &Vec<Entry>, chord: &str, section: usize) -> (r: Vec<Edit>)
    ensures
        text::views(r@) == removals(text::views(entries@), chord@, section as nat),
{
    let ghost all = text::views(entries@);
    let mut r: Vec<Edit> = Vec::new();
    let mut i: usize = 0;
    assert(text::views(r@) =~= removals(all.subrange(0, 0), chord@, section as nat));
    while i < entries.len()
        invariant
            i <= entries@.len(),
            all == text::views(entries@),
            text::views(r@) == removals(all.subrange(0, i as int), chord@, section as nat),
        decreases entries.len() - i,
    {
        let ghost next = all.subrange(0, i + 1);
        let ghost before = text::views(r@);
        assert(next.drop_last() =~= all.subrange(0, i as int));
        assert(next.last() == entries@[i as int]@);
        match &entries[i].chord {
            Some(c) => {
                if strings::same(c.as_str(), chord) {
                    let one = Edit::Remove { section, key: strings::copy(entries[i].key.as_str()) };
                    let ghost v = one@;
                    r.push(one);
                    assert(text::views(r@) =~= before.push(v));
                }
            },
            None => {},
        }
        i = i + 1;
    }
    assert(all.subrange(0, i as int) =~= all);
    r
}

/// The spelling of the first line with this chord.
pub open spec fn spelling(entries: Seq<EntryView>, chord: Seq<char>) -> Option<Seq<char>>
    decreases entries.len(),
{
    if entries.len() == 0 {
        None
    } else if entries[0].chord == Some(chord) {
        Some(entries[0].key)
    } else {
        spelling(entries.skip(1), chord)
    }
}

/// The spelling of the first line with this chord.
fn find_spelling(entries: &Vec<Entry>, chord: &str) -> (r: Option<String>)
    ensures
        text::opt(r) == spelling(text::views(entries@), chord@),
{
    let ghost all = text::views(entries@);
    let mut i: usize = 0;
    assert(all.skip(0) =~= all);
    while i < entries.len()
        invariant
            i <= entries@.len(),
            all == text::views(entries@),
            spelling(all.skip(i as int), chord@) == spelling(all, chord@),
        decreases entries.len() - i,
    {
        assert(all.skip(i as int)[0] == entries@[i as int]@);
        match &entries[i].chord {
            Some(c) => {
                if strings::same(c.as_str(), chord) {
                    return Some(strings::copy(entries[i].key.as_str()));
                }
            },
            None => {},
        }
        assert(all.skip(i as int).skip(1) =~= all.skip(i + 1));
        i = i + 1;
    }
    None
}

/// What a key is bound to among a section's bindings.
fn bound_value(bound: &Vec<Bound>, key: &str) -> (r: Option<String>)
    ensures
        text::opt(r) == value_of(text::views(bound@), key@),
{
    let ghost all = text::views(bound@);
    let mut i: usize = 0;
    assert(all.skip(0) =~= all);
    while i < bound.len()
        invariant
            i <= bound@.len(),
            all == text::views(bound@),
            value_of(all.skip(i as int), key@) == value_of(all, key@),
        decreases bound.len() - i,
    {
        assert(all.skip(i as int)[0] == bound@[i as int]@);
        if strings::same(bound[i].key.as_str(), key) {
            return Some(strings::copy(bound[i].val.as_str()));
        }
        assert(all.skip(i as int).skip(1) =~= all.skip(i + 1));
        i = i + 1;
    }
    None
}

/// The key of a chord of two keys, as it is written.
pub open spec fn chord_of(key1: Seq<char>, key2: Seq<char>) -> Seq<char> {
    text::trim(key1) + "+"@ + text::trim(key2)
}

/// The key of a chord of two keys, as it is written.
pub fn chord_key(key1: &str, key2: &str) -> (r: String)
    ensures
        r@ == chord_of(key1@, key2@),
{
    let a = strings::trim(key1);
    let b = strings::trim(key2);
    strings::cat3(a.as_str(), "+", b.as_str())
}

/// What setting a chord comes to: `chord` is the order-independent spelling of its two
/// keys, and `target` the lines of the section that takes the layer's bindings, if the
/// config has or can have one.
pub open spec fn chord_edit(
    layer: Seq<char>,
    key1: Seq<char>,
    key2: Seq<char>,
    action: Seq<char>,
    chord: Seq<char>,
    target: Option<Seq<EntryView>>,
) -> Result<EditView, Seq<char>> {
    let a = text::trim(action);
    if text::trim(key1).len() == 0 || text::trim(key2).len() == 0 {
        Err("pick two keys for the chord"@)
    } else if text::trim(key1) == text::trim(key2) {
        Err("a chord needs two different keys"@)
    } else if a.len() == 0 {
        Err("enter an action for the chord"@)
    } else {
        match target {
            None => Err(no_section(layer)),
            Some(entries) => match spelling(entries, chord) {
                Some(k) => Ok(EditView::Rewrite { layer, key: k, val: a }),
                None => Ok(EditView::Bind { layer, key: chord_of(key1, key2), val: a }),
            },
        }
    }
}

/// The lines of an optional section.
pub open spec fn lines_of(target: Option<Vec<Entry>>) -> Option<Seq<EntryView>> {
    match target {
        Some(entries) => Some(text::views(entries@)),
        None => None,
    }
}

/// What binding a tap/hold comes to: `form` is the function that the key's present
/// binding calls.
pub open spec fn tap_hold_edit(
    current: Option<Seq<char>>,
    form: Option<Seq<char>>,
    layer: Seq<char>,
    key: Seq<char>,
    composed: Seq<char>,
    target: bool,
) -> Result<EditView, Seq<char>> {
    if current is Some && form == Some("overloadi"@) {
        Err(
            "this key uses keyd's advanced overloadi() form \u{2014} switch to simple mode to edit it as text"@,
        )
    } else if !target {
        Err(no_section(layer))
    } else {
        Ok(EditView::Bind { layer, key, val: composed })
    }
}

/// What binding a macro comes to: `form` is the function that the key's present binding
/// calls, `modelled` says that it decomposes into steps, and `again` is what the new
/// macro's text serializes to when it is read back.
pub open spec fn macro_edit(
    current: Option<Seq<char>>,
    form: Option<Seq<char>>,
    modelled: bool,
    layer: Seq<char>,
    key: Seq<char>,
    steps: nat,
    written: Seq<char>,
    again: Option<Seq<char>>,
    target: bool,
) -> Result<EditView, Seq<char>> {
    if steps == 0 {
        Err("a macro needs at least one step"@)
    } else if current is Some && (form == Some("macro"@) || form == Some("macro2"@)) && !modelled {
        Err(
            "this key uses an advanced macro form keyd-viz can't edit \u{2014} switch to simple mode to edit it as text"@,
        )
    } else if again != Some(written) {
        Err(
            "this macro has text keyd can\u{2019}t type \u{2014} remove any parentheses and try again"@,
        )
    } else if !target {
        Err(no_section(layer))
    } else {
        Ok(EditView::Bind { layer, key, val: written })
    }
}

fn is_some_text(o: &Option<String>, w: &str) -> (r: bool)
    ensures
        r == (text::opt(*o) == Some(w@)),
{
    match o {
        Some(t) => strings::same(t.as_str(), w),
        None => false,
    }
}

// ---------------------------------------------------------------------------
// References
// ---------------------------------------------------------------------------

/// A binding, by its section and key, and the layer that it points at.
#[derive(Debug)]
pub struct Reference {
    pub layer: String,
    pub section: String,
    pub key: String,
}

pub struct ReferenceView {
    pub layer: Seq<char>,
    pub section: Seq<char>,
    pub key: Seq<char>,
}

impl View for Reference {
    type V = ReferenceView;

    open spec fn view(&self) -> ReferenceView {
        ReferenceView { layer: self.layer@, section: self.section@, key: self.key@ }
    }
}

/// Where a binding stands.
pub open spec fn site(r: ReferenceView) -> Seq<char> {
    r.key + " in ["@ + r.section + "]"@
}

/// Where each binding stands.
pub open spec fn sites(refs: Seq<ReferenceView>) -> Seq<Seq<char>> {
    Seq::new(refs.len(), |i: int| site(refs[i]))
}

fn site_text(r: &Reference) -> (t: String)
    ensures
        t@ == site(r@),
{
    let mut t = strings::cat3(r.key.as_str(), " in [", r.section.as_str());
    t.append("]");
    t
}

/// Those of the bindings that point at the layer.
pub open spec fn pointing_at(refs: Seq<ReferenceView>, layer: Seq<char>) -> Seq<ReferenceView> {
    refs.filter(|r: ReferenceView| r.layer == layer)
}

/// At most three of the places, and how many more there are.
pub open spec fn few(places: Seq<Seq<char>>) -> Seq<char> {
    if places.len() > 3 {
        text::join(places.subrange(0, 3), ", "@) + " (+"@ + text::decimal(
            (places.len() - 3) as nat,
        ) + " more)"@
    } else {
        text::join(places, ", "@)
    }
}

/// At most three of the places, and how many more there are.
pub fn few_text(places: &Vec<String>) -> (r: String)
    ensures
        r@ == few(text::texts(places@)),
{
    let ghost all = text::texts(places@);
    if places.len() > 3 {
        let mut shown: Vec<String> = Vec::new();
        shown.push(strings::copy(places[0].as_str()));
        shown.push(strings::copy(places[1].as_str()));
        shown.push(strings::copy(places[2].as_str()));
        assert(text::texts(shown@) =~= all.subrange(0, 3));
        let mut r = strings::join(&shown, ", ");
        r.append(" (+");
        let more: usize = places.len() - 3;
        r.append(strings::decimal(more as u64).as_str());
        r.append(" more)");
        r
    } else {
        strings::join(places, ", ")
    }
}

/// A missing layer and where it is referred to.
pub struct OrphanView {
    pub layer: Seq<char>,
    pub places: Seq<Seq<char>>,
}

struct Orphan {
    layer: String,
    places: Vec<String>,
}

impl View for Orphan {
    type V = OrphanView;

    closed spec fn view(&self) -> OrphanView {
        OrphanView { layer: self.layer@, places: text::texts(self.places@) }
    }
}

/// The missing layers with one more reference: at its layer where that is known, else as
/// a new one at the end.
pub open spec fn add_place(groups: Seq<OrphanView>, layer: Seq<char>, place: Seq<char>) -> Seq<
    OrphanView,
>
    decreases groups.len(),
{
    if groups.len() == 0 {
        seq![OrphanView { layer, places: seq![place] }]
    } else if groups[0].layer == layer {
        groups.update(0, OrphanView { layer, places: groups[0].places.push(place) })
    } else {
        seq![groups[0]] + add_place(groups.skip(1), layer, place)
    }
}

/// The references by missing layer, in the order in which the layers come up.
pub open spec fn orphan_groups(refs: Seq<ReferenceView>) -> Seq<OrphanView>
    decreases refs.len(),
{
    if refs.len() == 0 {
        Seq::empty()
    } else {
        add_place(orphan_groups(refs.drop_last()), refs.last().layer, site(refs.last()))
    }
}

/// The warning on a missing layer.
pub open spec fn orphan_line(o: OrphanView) -> Seq<char> {
    "\u{26a0} no ["@ + o.layer + "] layer \u{2014} referenced by "@ + few(o.places)
}

/// The warnings on all missing layers.
pub open spec fn orphan_lines(refs: Seq<ReferenceView>) -> Seq<Seq<char>> {
    let groups = orphan_groups(refs);
    Seq::new(groups.len(), |i: int| orphan_line(groups[i]))
}

/// The first group of the layer, none before it being that layer's.
spec fn is_first(groups: Seq<OrphanView>, layer: Seq<char>, at: int) -> bool {
    &&& 0 <= at <= groups.len()
    &&& forall|i: int| 0 <= i < at ==> (#[trigger] groups[i]).layer != layer
    &&& at < groups.len() ==> groups[at].layer == layer
}

proof fn place_added_at(groups: Seq<OrphanView>, layer: Seq<char>, place: Seq<char>, at: int)
    requires
        is_first(groups, layer, at),
    ensures
        add_place(groups, layer, place) == (if at == groups.len() {
            groups.push(OrphanView { layer, places: seq![place] })
        } else {
            groups.update(at, OrphanView { layer, places: groups[at].places.push(place) })
        }),
    decreases groups.len(),
{
    if groups.len() == 0 {
        assert(groups.push(OrphanView { layer, places: seq![place] }) =~= seq![
            OrphanView { layer, places: seq![place] },
        ]);
    } else if at > 0 {
        let rest = groups.skip(1);
        assert(groups[0].layer != layer);
        assert forall|i: int| 0 <= i < at - 1 implies (#[trigger] rest[i]).layer != layer by {
            assert(groups[i + 1].layer != layer);
        }
        place_added_at(rest, layer, place, at - 1);
        if at == groups.len() {
            assert(seq![groups[0]] + rest.push(OrphanView { layer, places: seq![place] })
                =~= groups.push(OrphanView { layer, places: seq![place] }));
        } else {
            let o = OrphanView { layer, places: groups[at].places.push(place) };
            assert(seq![groups[0]] + rest.update(at - 1, o) =~= groups.update(at, o));
        }
    }
}

/// Add a reference to the groups.
fn add_orphan(groups: &mut Vec<Orphan>, layer: &str, place: String)
    ensures
        text::views(final(groups)@) == add_place(text::views(old(groups)@), layer@, place@),
{
    let ghost all = text::views(groups@);
    let ghost p = place@;
    let mut i: usize = 0;
    while i < groups.len() && !strings::same(groups[i].layer.as_str(), layer)
        invariant
            i <= groups@.len(),
            all == text::views(groups@),
            forall|k: int| 0 <= k < i ==> (#[trigger] all[k]).layer != layer@,
        decreases groups.len() - i,
    {
        assert(all[i as int] == groups@[i as int]@);
        i = i + 1;
    }
    assert(i < groups@.len() ==> all[i as int] == groups@[i as int]@);
    proof {
        place_added_at(all, layer@, p, i as int);
    }
    if i == groups.len() {
        let mut places: Vec<String> = Vec::new();
        places.push(place);
        assert(text::texts(places@) =~= seq![p]);
        let one = Orphan { layer: strings::copy(layer), places };
        groups.push(one);
        assert(text::views(groups@) =~= all.push(OrphanView { layer: layer@, places: seq![p] }));
    } else {
        let ghost was = groups@[i as int];
        let mut places = strings::copy_all(&groups[i].places);
        let ghost before = text::texts(places@);
        places.push(place);
        assert(text::texts(places@) =~= before.push(p));
        let one = Orphan { layer: strings::copy(layer), places };
        let ghost v = one@;
        groups.set(i, one);
        assert(text::views(groups@) =~= all.update(i as int, v));
    }
}

/// One warning for each layer that the bindings point at.
fn orphan_texts(refs: &Vec<Reference>) -> (r: Vec<String>)
    ensures
        text::texts(r@) == orphan_lines(text::views(refs@)),
{
    let ghost all = text::views(refs@);
    let mut groups: Vec<Orphan> = Vec::new();
    let mut i: usize = 0;
    assert(text::views(groups@) =~= orphan_groups(all.subrange(0, 0)));
    while i < refs.len()
        invariant
            i <= refs@.len(),
            all == text::views(refs@),
            text::views(groups@) == orphan_groups(all.subrange(0, i as int)),
        decreases refs.len() - i,
    {
        let ghost next = all.subrange(0, i + 1);
        assert(next.drop_last() =~= all.subrange(0, i as int));
        assert(next.last() == refs@[i as int]@);
        add_orphan(&mut groups, refs[i].layer.as_str(), site_text(&refs[i]));
        i = i + 1;
    }
    assert(all.subrange(0, i as int) =~= all);
    let ghost found = orphan_groups(all);
    let ghost lines = orphan_lines(all);
    let mut r: Vec<String> = Vec::new();
    let mut k: usize = 0;
    while k < groups.len()
        invariant
            k <= groups@.len(),
            text::views(groups@) == found,
            lines == Seq::new(found.len(), |i: int| orphan_line(found[i])),
            text::texts(r@) == lines.subrange(0, k as int),
        decreases groups.len() - k,
    {
        let ghost before = text::texts(r@);
        assert(found[k as int] == groups@[k as int]@);
        let mut t = strings::cat3(
            "\u{26a0} no [",
            groups[k].layer.as_str(),
            "] layer \u{2014} referenced by ",
        );
        t.append(few_text(&groups[k].places).as_str());
        assert(t@ == lines[k as int]);
        r.push(t);
        assert(text::texts(r@) =~= before.push(lines[k as int]));
        assert(lines.subrange(0, k + 1) =~= before.push(lines[k as int]));
        k = k + 1;
    }
    assert(lines.subrange(0, k as int) =~= lines);
    r
}

// ---------------------------------------------------------------------------
// The session
// ---------------------------------------------------------------------------

/// An open edit session for one config.
#[derive(Debug)]
pub struct EditSession {
    /// The config that is edited. One that is being created is not on disk yet.
    pub path: String,
    /// The text at open: the base of the diff, and what tells that the file changed
    /// since. Empty for one that is being created.
    pub original: String,
    pub model: Model,
    /// The config is being created. It has content to persist before the first edit.
    pub created: bool,
}

/// A draft to write.
#[derive(Debug)]
pub struct Draft {
    /// The directory to make first.
    pub dir: String,
    pub path: String,
    pub body: String,
}

/// The file is not what it was when the session opened.
pub open spec fn is_stale(original: Seq<char>, now: Option<Seq<char>>) -> bool {
    now is Some && now->0 != original
}

/// The warning that the file changed under the session.
pub open spec fn stale_line(path: Seq<char>) -> Seq<char> {
    path
        + " changed on disk since this session opened \u{2014} review the diff before installing"@
}

/// Opening a config ends in `r`: a session on the content as it was read, or the reason why
/// it stays view-only.
pub open spec fn opened(
    r: Result<EditSession, ViewOnly>,
    path: Seq<char>,
    content: Result<String, String>,
    barred: Option<ViewOnlyView>,
    model: Model,
) -> bool {
    match content {
        Err(e) => r is Err && r->Err_0@ == ViewOnlyView::Unreadable(e@),
        Ok(c) => match barred {
            Some(v) => r is Err && r->Err_0@ == v,
            None => r is Ok && r->Ok_0.path@ == path && r->Ok_0.original@ == c@ && r->Ok_0.model
                == model && !r->Ok_0.created,
        },
    }
}

/// Creating a config ends in `r`: a session on nothing yet, or the reason why there is none.
pub open spec fn started(
    r: Result<EditSession, ViewOnly>,
    path: Seq<char>,
    barred: Option<ViewOnlyView>,
    model: Model,
) -> bool {
    match barred {
        Some(v) => r is Err && r->Err_0@ == v,
        None => r is Ok && r->Ok_0.path@ == path && r->Ok_0.original@.len() == 0 && r->Ok_0.model
            == model && r->Ok_0.created,
    }
}

/// What binding a key comes to.
pub open spec fn bind_edit(
    layer: Seq<char>,
    key: Seq<char>,
    val: Seq<char>,
    target: bool,
) -> Result<EditView, Seq<char>> {
    if target {
        Ok(EditView::Bind { layer, key, val })
    } else {
        Err(no_section(layer))
    }
}

/// What clearing a key comes to.
pub open spec fn unbind_edit(
    sections: Seq<SectionView>,
    layer: Seq<char>,
    key: Seq<char>,
) -> Result<EditView, Seq<char>> {
    if editable(sections).contains(layer) {
        Ok(EditView::Unbind { layer, key })
    } else {
        Err(no_section(layer))
    }
}

/// What setting an option comes to.
pub open spec fn option_edit(name: Seq<char>, value: Seq<char>) -> Result<EditView, Seq<char>> {
    if text::trim(name).len() == 0 {
        Err("missing option name"@)
    } else if text::trim(value).len() == 0 {
        Ok(EditView::ClearGlobal { name: text::trim(name) })
    } else {
        Ok(EditView::SetGlobal { name: text::trim(name), val: text::trim(value) })
    }
}

/// What clearing an option comes to.
pub open spec fn option_cleared(name: Seq<char>) -> EditView {
    EditView::ClearGlobal { name: text::trim(name) }
}

/// The name of a layer, from what the model answered to it.
pub open spec fn layer_called(name: Seq<char>, answer: Result<(), String>) -> Result<
    Seq<char>,
    Seq<char>,
> {
    match answer {
        Ok(_) => Ok(text::trim(name)),
        Err(e) => Err(e@),
    }
}

/// Deleting a layer ends in `r`, from whether the model had it.
pub open spec fn deleted(r: Result<(), String>, base: Seq<char>, removed: bool) -> bool {
    &&& r is Ok <==> removed
    &&& r is Err ==> r->Err_0@ == "this config has no ["@ + base + "] layer"@
}

/// There is something to persist: a config that is being created, or an edit.
pub open spec fn to_persist(created: bool, edited: bool) -> bool {
    created || edited
}

/// The warning on a file that changed, where it did.
pub open spec fn stale_notice(
    path: Seq<char>,
    original: Seq<char>,
    now: Option<Seq<char>>,
) -> Option<Seq<char>> {
    if is_stale(original, now) {
        Some(stale_line(path))
    } else {
        None
    }
}

/// `d` is the draft of a config into a directory.
pub open spec fn drafted(d: Draft, dir: Seq<char>, path: Seq<char>, body: Seq<char>) -> bool {
    &&& d.dir@ == dir
    &&& d.path@ == drafts::draft_place(path, dir)
    &&& d.body@ == body
}

/// Drafting a config below the base of the per-user store ends in `r`.
pub open spec fn drafted_below(
    r: Result<Draft, String>,
    base: Option<Seq<char>>,
    path: Seq<char>,
    body: Seq<char>,
) -> bool {
    match base {
        None => r is Err && r->Err_0@ == "no XDG_CONFIG_HOME or HOME"@,
        Some(b) => r is Ok && drafted(
            r->Ok_0,
            paths::join(paths::join(b, "keyd-viz"@), "drafts"@),
            path,
            body,
        ),
    }
}

/// `r` is what is said of a draft that was written.
pub open spec fn told_of_draft(
    r: DraftSaved,
    draft: Seq<char>,
    path: Seq<char>,
    original: Seq<char>,
    now: Option<Seq<char>>,
    check: Option<Result<(), String>>,
) -> bool {
    &&& r.draft_path@ == draft
    &&& r.install_steps@ == drafts::steps_of(draft, path)
    &&& text::opt(r.stale_warning) == stale_notice(path, original, now)
    &&& r.check == check
}

impl EditSession {
    /// Open a config for editing: from its content (or why it could not be read), what
    /// was found of it, and its model.
    pub fn open(
        path: &str,
        content: Result<String, String>,
        round_trips: bool,
        diagnostics: &Vec<String>,
        model: Model,
    ) -> (r: Result<EditSession, ViewOnly>)
        ensures
            opened(r, path@, content, gate_of(round_trips, text::texts(diagnostics@)), model),
    {
        match content {
            Err(e) => Err(ViewOnly::Unreadable(e)),
            Ok(c) => match gate(round_trips, diagnostics) {
                Some(v) => Err(v),
                None => Ok(
                    EditSession { path: strings::copy(path), original: c, model, created: false },
                ),
            },
        }
    }

    /// Start a new config, not on disk yet, from what was found of its starter text
    /// and the model of it.
    pub fn create(path: &str, round_trips: bool, diagnostics: &Vec<String>, model: Model) -> (r:
        Result<EditSession, ViewOnly>)
        ensures
            started(r, path@, gate_of(round_trips, text::texts(diagnostics@)), model),
    {
        match gate(round_trips, diagnostics) {
            Some(v) => Err(v),
            None => Ok(
                EditSession {
                    path: strings::copy(path),
                    original: String::new(),
                    model,
                    created: true,
                },
            ),
        }
    }

    /// The model as it is after an edit.
    pub fn update(&mut self, model: Model)
        ensures
            *final(self) == (EditSession { model, ..*old(self) }),
    {
        self.model = model;
    }

    /// The base names of the sections that can be edited, in file order, each once: the
    /// exact set that the chooser offers.
    pub fn editable_sections(&self) -> (r: Vec<String>)
        ensures
            text::texts(r@) == editable(text::views(self.model.sections@)),
    {
        let sections = &self.model.sections;
        let ghost all = text::views(sections@);
        let mut r: Vec<String> = Vec::new();
        let mut i: usize = 0;
        assert(text::texts(r@) =~= editable(all.subrange(0, 0)));
        while i < sections.len()
            invariant
                i <= sections@.len(),
                all == text::views(sections@),
                text::texts(r@) == editable(all.subrange(0, i as int)),
            decreases sections.len() - i,
        {
            let ghost next = all.subrange(0, i + 1);
            let ghost before = text::texts(r@);
            assert(next.drop_last() =~= all.subrange(0, i as int));
            assert(next.last() == sections@[i as int]@);
            let base = strings::trim(sections[i].base.as_str());
            let ghost b = base@;
            let known = strings::listed(&r, base.as_str());
            assert(known == before.contains(b)) by {
                if known {
                    let k = choose|k: int| 0 <= k < r@.len() && #[trigger] r@[k]@ == b;
                    assert(before[k] == b);
                }
                if before.contains(b) {
                    let k = choose|k: int| 0 <= k < before.len() && before[k] == b;
                    assert(r@[k]@ == b);
                }
            }
            let shown = matches!(
                sections[i].kind,
                SectionKind::Main | SectionKind::Layer | SectionKind::Composite
            );
            if shown && !base.as_str().is_empty() && !known {
                r.push(base);
                assert(text::texts(r@) =~= before.push(b));
            }
            i = i + 1;
        }
        assert(all.subrange(0, i as int) =~= all);
        r
    }

    /// What the key is bound to on the layer's board.
    pub fn current_binding(&self, layer: &str, key: &str) -> (r: Option<String>)
        ensures
            text::opt(r) == binding_in(text::views(self.model.sections@), layer@, key@),
    {
        let sections = &self.model.sections;
        let ghost all = text::views(sections@);
        let mut i: usize = sections.len();
        assert(all.subrange(0, i as int) =~= all);
        while i > 0
            invariant
                i <= sections@.len(),
                all == text::views(self.model.sections@),
                sections == self.model.sections,
                binding_in(all.subrange(0, i as int), layer@, key@) == binding_in(
                    all,
                    layer@,
                    key@,
                ),
            decreases i,
        {
            let s = &sections[i - 1];
            let ghost now = all.subrange(0, i as int);
            assert(now.drop_last() =~= all.subrange(0, i - 1));
            assert(now.last() == s@);
            let shown = matches!(
                s.kind,
                SectionKind::Main | SectionKind::Layer | SectionKind::Composite
            );
            if shown && strings::same(strings::trim(s.base.as_str()).as_str(), layer) {
                let v = bound_value(&s.bound, key);
                if v.is_some() {
                    return v;
                }
            }
            i = i - 1;
        }
        None
    }

    /// Bind a key on the layer's board; `target` says that the config has, or can have, a
    /// section for it.
    pub fn set_binding(&self, layer: &str, key: &str, val: &str, target: bool) -> (r: Result<
        Edit,
        String,
    >)
        ensures
            decided(r) == bind_edit(layer@, key@, val@, target),
    {
        if target {
            Ok(
                Edit::Bind {
                    layer: strings::copy(layer),
                    key: strings::copy(key),
                    val: strings::copy(val),
                },
            )
        } else {
            Err(no_section_text(layer))
        }
    }

    /// Make a key transparent on the layer's board, so that it falls through to the base.
    pub fn clear_binding(&self, layer: &str, key: &str) -> (r: Result<Edit, String>)
        ensures
            decided(r) == unbind_edit(text::views(self.model.sections@), layer@, key@),
    {
        let names = self.editable_sections();
        let known = strings::listed(&names, layer);
        assert(known == text::texts(names@).contains(layer@)) by {
            let t = text::texts(names@);
            if known {
                let k = choose|k: int| 0 <= k < names@.len() && #[trigger] names@[k]@ == layer@;
                assert(t[k] == layer@);
            }
            if t.contains(layer@) {
                let k = choose|k: int| 0 <= k < t.len() && t[k] == layer@;
                assert(names@[k]@ == layer@);
            }
        }
        if known {
            Ok(Edit::Unbind { layer: strings::copy(layer), key: strings::copy(key) })
        } else {
            Err(no_section_text(layer))
        }
    }

    /// Make a key dual-function on the layer's board: `composed` is the new binding, and
    /// `form` the function that the present one calls. A form that the panel can't
    /// decompose is not overwritten.
    pub fn set_tap_hold(
        &self,
        layer: &str,
        key: &str,
        form: &Option<String>,
        composed: &str,
        target: bool,
    ) -> (r: Result<Edit, String>)
        ensures
            decided(r) == tap_hold_edit(
                binding_in(text::views(self.model.sections@), layer@, key@),
                text::opt(*form),
                layer@,
                key@,
                composed@,
                target,
            ),
    {
        let bound = self.current_binding(layer, key).is_some();
        if bound && is_some_text(form, "overloadi") {
            return Err(
                strings::copy(
                    "this key uses keyd's advanced overloadi() form \u{2014} switch to simple mode to edit it as text",
                ),
            );
        }
        self.set_binding(layer, key, composed, target)
    }

    /// Bind a macro on the layer's board: `written` is its text, and `again` what that
    /// text serializes to when it is read back. A macro that can't be decomposed
    /// (`modelled` says whether the present one can) is not overwritten, and one that
    /// does not survive being read back is not written.
    pub fn set_macro(
        &self,
        layer: &str,
        key: &str,
        steps: usize,
        form: &Option<String>,
        modelled: bool,
        written: &str,
        again: &Option<String>,
        target: bool,
    ) -> (r: Result<Edit, String>)
        ensures
            decided(r) == macro_edit(
                binding_in(text::views(self.model.sections@), layer@, key@),
                text::opt(*form),
                modelled,
                layer@,
                key@,
                steps as nat,
                written@,
                text::opt(*again),
                target,
            ),
    {
        if steps == 0 {
            return Err(strings::copy("a macro needs at least one step"));
        }
        let bound = self.current_binding(layer, key).is_some();
        if bound && (is_some_text(form, "macro") || is_some_text(form, "macro2")) && !modelled {
            return Err(
                strings::copy(
                    "this key uses an advanced macro form keyd-viz can't edit \u{2014} switch to simple mode to edit it as text",
                ),
            );
        }
        if !is_some_text(again, written) {
            return Err(
                strings::copy(
                    "this macro has text keyd can\u{2019}t type \u{2014} remove any parentheses and try again",
                ),
            );
        }
        self.set_binding(layer, key, written, target)
    }

    /// Every chord of the layer, in file order, each under its order-independent
    /// spelling; the last of those that differ only in order.
    pub fn chords(&self, layer: &str) -> (r: Vec<Setting>)
        ensures
            text::views(r@) == chords_in(text::views(self.model.sections@), layer@),
    {
        let sections = &self.model.sections;
        let ghost all = text::views(sections@);
        let mut r: Vec<Setting> = Vec::new();
        let mut i: usize = 0;
        assert(text::views(r@) =~= chords_in(all.subrange(0, 0), layer@));
        while i < sections.len()
            invariant
                i <= sections@.len(),
                all == text::views(sections@),
                text::views(r@) == chords_in(all.subrange(0, i as int), layer@),
            decreases sections.len() - i,
        {
            let ghost next = all.subrange(0, i + 1);
            assert(next.drop_last() =~= all.subrange(0, i as int));
            assert(next.last() == sections@[i as int]@);
            if section_is_layer(&sections[i], layer) {
                r = add_chords(r, &sections[i].entries);
            }
            i = i + 1;
        }
        assert(all.subrange(0, i as int) =~= all);
        r
    }

    /// Bind a chord of two keys in the layer. Where one of these keys in any order is
    /// there, its line is rewritten, in its own spelling; else a new line is added.
    pub fn set_chord(
        &self,
        layer: &str,
        key1: &str,
        key2: &str,
        action: &str,
        chord: &str,
        target: &Option<Vec<Entry>>,
    ) -> (r: Result<Edit, String>)
        ensures
            decided(r) == chord_edit(layer@, key1@, key2@, action@, chord@, lines_of(*target)),
    {
        let a = strings::trim(key1);
        let b = strings::trim(key2);
        let act = strings::trim(action);
        if a.as_str().is_empty() || b.as_str().is_empty() {
            return Err(strings::copy("pick two keys for the chord"));
        }
        if strings::same(a.as_str(), b.as_str()) {
            return Err(strings::copy("a chord needs two different keys"));
        }
        if act.as_str().is_empty() {
            return Err(strings::copy("enter an action for the chord"));
        }
        match target {
            None => Err(no_section_text(layer)),
            Some(entries) => {
                let layer = strings::copy(layer);
                match find_spelling(entries, chord) {
                    Some(key) => Ok(Edit::Rewrite { layer, key, val: act }),
                    None => Ok(Edit::Bind { layer, key: chord_key(key1, key2), val: act }),
                }
            },
        }
    }

    /// Remove a chord, by its order-independent spelling, from every section of the
    /// layer. That it is not there is no error; that the layer is not there is.
    pub fn remove_chord(&self, layer: &str, chord: &str) -> (r: Result<Vec<Edit>, String>)
        ensures
            match r {
                Ok(edits) => has_section(text::views(self.model.sections@), layer@) && text::views(
                    edits@,
                ) == all_removals(text::views(self.model.sections@), layer@, chord@),
                Err(m) => !has_section(text::views(self.model.sections@), layer@) && m@
                    == no_section(layer@),
            },
    {
        let sections = &self.model.sections;
        let ghost all = text::views(sections@);
        let mut r: Vec<Edit> = Vec::new();
        let mut found = false;
        let mut i: usize = 0;
        assert(text::views(r@) =~= all_removals(all.subrange(0, 0), layer@, chord@));
        while i < sections.len()
            invariant
                i <= sections@.len(),
                all == text::views(sections@),
                text::views(r@) == all_removals(all.subrange(0, i as int), layer@, chord@),
                found <==> exists|k: int| 0 <= k < i && serves(#[trigger] all[k], layer@),
            decreases sections.len() - i,
        {
            let ghost next = all.subrange(0, i + 1);
            let ghost before = text::views(r@);
            assert(next.drop_last() =~= all.subrange(0, i as int));
            assert(next.last() == sections@[i as int]@);
            assert(all[i as int] == sections@[i as int]@);
            if section_is_layer(&sections[i], layer) {
                found = true;
                let mut more = remove_from(&sections[i].entries, chord, i);
                let ghost m = text::views(more@);
                r.append(&mut more);
                assert(text::views(r@) =~= before + m);
            }
            i = i + 1;
        }
        assert(all.subrange(0, i as int) =~= all);
        if found {
            Ok(r)
        } else {
            Err(no_section_text(layer))
        }
    }

    /// The `[global]` options that are set: of each name the last.
    pub fn global_entries(&self) -> (r: Vec<Setting>)
        ensures
            text::views(r@) == options_of(self.model.global),
    {
        let mut r: Vec<Setting> = Vec::new();
        assert(text::views(r@) =~= Seq::<SettingView>::empty());
        match &self.model.global {
            None => r,
            Some(entries) => {
                let ghost all = text::views(entries@);
                let mut i: usize = 0;
                assert(text::views(r@) =~= options_in(all.subrange(0, 0)));
                while i < entries.len()
                    invariant
                        i <= entries@.len(),
                        all == text::views(entries@),
                        text::views(r@) == options_in(all.subrange(0, i as int)),
                    decreases entries.len() - i,
                {
                    let ghost next = all.subrange(0, i + 1);
                    assert(next.drop_last() =~= all.subrange(0, i as int));
                    assert(next.last() == entries@[i as int]@);
                    match &entries[i].val {
                        Some(v) => {
                            let one = Setting {
                                key: strings::copy(entries[i].key.as_str()),
                                id: strings::copy(entries[i].key.as_str()),
                                val: strings::copy(v.as_str()),
                            };
                            r = put_setting(r, one);
                        },
                        None => {},
                    }
                    i = i + 1;
                }
                assert(all.subrange(0, i as int) =~= all);
                r
            },
        }
    }

    /// Set a `[global]` option; an empty value clears it, so that keyd's default holds.
    pub fn set_global(&self, name: &str, value: &str) -> (r: Result<Edit, String>)
        ensures
            decided(r) == option_edit(name@, value@),
    {
        proof {
            text::trim_is_tight(name@);
        }
        let name = strings::trim(name);
        let value = strings::trim(value);
        if name.as_str().is_empty() {
            return Err(strings::copy("missing option name"));
        }
        if value.as_str().is_empty() {
            return Ok(self.clear_global(name.as_str()));
        }
        Ok(Edit::SetGlobal { name, val: value })
    }

    /// Remove a `[global]` option.
    pub fn clear_global(&self, name: &str) -> (r: Edit)
        ensures
            r@ == option_cleared(name@),
    {
        Edit::ClearGlobal { name: strings::trim(name) }
    }

    /// Whether a `[global]` option has a line, so that clearing it removes something.
    pub fn has_global(&self, name: &str) -> (r: bool)
        ensures
            r == sets_option(self.model.global, text::trim(name@)),
    {
        let wanted = strings::trim(name);
        match &self.model.global {
            None => false,
            Some(entries) => {
                let mut i: usize = 0;
                while i < entries.len()
                    invariant
                        i <= entries@.len(),
                        self.model.global == Some(*entries),
                        wanted@ == text::trim(name@),
                        forall|k: int| 0 <= k < i ==> (#[trigger] entries@[k])@.key != wanted@,
                    decreases entries.len() - i,
                {
                    if strings::same(entries[i].key.as_str(), wanted.as_str()) {
                        assert(entries@[i as int]@.key == wanted@);
                        return true;
                    }
                    i = i + 1;
                }
                false
            },
        }
    }

    /// The name of a layer that was added or renamed to, from what the model answered.
    pub fn add_layer(&self, name: &str, answer: Result<(), String>) -> (r: Result<String, String>)
        ensures
            named(r) == layer_called(name@, answer),
    {
        match answer {
            Ok(_) => Ok(strings::trim(name)),
            Err(e) => Err(e),
        }
    }

    /// The new name of a layer, from what the model answered to the renaming.
    pub fn rename_layer(&self, new_name: &str, answer: Result<(), String>) -> (r: Result<
        String,
        String,
    >)
        ensures
            named(r) == layer_called(new_name@, answer),
    {
        self.add_layer(new_name, answer)
    }

    /// Whether a layer could be deleted, from whether the model had it.
    pub fn remove_layer(&self, base: &str, removed: bool) -> (r: Result<(), String>)
        ensures
            deleted(r, base@, removed),
    {
        if removed {
            Ok(())
        } else {
            Err(strings::cat3("this config has no [", base, "] layer"))
        }
    }

    /// Where a layer is still referred to: empty for a clean delete.
    pub fn references_to(&self, layer: &str) -> (r: Vec<String>)
        ensures
            text::texts(r@) == sites(pointing_at(text::views(self.model.uses@), layer@)),
    {
        let refs = &self.model.uses;
        let ghost all = text::views(refs@);
        let ghost f = |r: ReferenceView| r.layer == layer@;
        let mut r: Vec<String> = Vec::new();
        let mut i: usize = 0;
        proof {
            reveal(Seq::filter);
        }
        assert(text::texts(r@) =~= sites(pointing_at(all.subrange(0, 0), layer@)));
        while i < refs.len()
            invariant
                i <= refs@.len(),
                all == text::views(refs@),
                f == (|r: ReferenceView| r.layer == layer@),
                text::texts(r@) == sites(pointing_at(all.subrange(0, i as int), layer@)),
            decreases refs.len() - i,
        {
            let ghost next = all.subrange(0, i + 1);
            let ghost before = text::texts(r@);
            let ghost seen = all.subrange(0, i as int).filter(f);
            assert(next.drop_last() =~= all.subrange(0, i as int));
            assert(next.last() == refs@[i as int]@);
            proof {
                reveal(Seq::filter);
            }
            if strings::same(refs[i].layer.as_str(), layer) {
                let t = site_text(&refs[i]);
                let ghost v = t@;
                r.push(t);
                assert(text::texts(r@) =~= before.push(v));
                assert(next.filter(f) == seen.push(next.last()));
                assert(sites(seen.push(next.last())) =~= sites(seen).push(site(next.last())));
            } else {
                assert(next.filter(f) == seen);
            }
            i = i + 1;
        }
        assert(all.subrange(0, i as int) =~= all);
        r
    }

    /// Warnings for bindings that activate a layer which the config never defines: one line
    /// per missing layer, naming where it's referred to.
    pub fn orphan_warnings(&self) -> (r: Vec<String>)
        ensures
            text::texts(r@) == orphan_lines(text::views(self.model.orphans@)),
    {
        orphan_texts(&self.model.orphans)
    }

    /// There is something to persist.
    pub fn dirty(&self) -> (r: bool)
        ensures
            r == to_persist(self.created, self.model.edited),
    {
        self.created || self.model.edited
    }

    /// The config is not on disk yet.
    pub fn is_new(&self) -> (r: bool)
        ensures
            r == self.created,
    {
        self.created
    }

    /// The changed lines of the session.
    pub fn diff(&self) -> (r: String)
        ensures
            r@ == diff::diff_of(self.original@, self.model.text@),
    {
        diff::line_diff(self.original.as_str(), self.model.text.as_str())
    }

    /// The exact text that a draft or an apply persists.
    pub fn serialized(&self) -> (r: String)
        ensures
            r@ == self.model.text@,
    {
        strings::copy(self.model.text.as_str())
    }

    /// The name under which one-click apply can reach the config, if it is directly in
    /// the directory and named as the apply tool allows.
    pub fn apply_target(&self, dir: &str) -> (r: Option<String>)
        ensures
            text::opt(r) == paths::target_name(self.path@, dir@),
    {
        paths::target_of(self.path.as_str(), dir)
    }

    /// The warning that the real file moved under the session, from what it holds now
    /// (none where it can't be read).
    pub fn stale_warning(&self, now: &Option<String>) -> (r: Option<String>)
        ensures
            text::opt(r) == stale_notice(self.path@, self.original@, text::opt(*now)),
    {
        match now {
            Some(n) => if strings::same(n.as_str(), self.original.as_str()) {
                None
            } else {
                Some(
                    strings::cat(
                        self.path.as_str(),
                        " changed on disk since this session opened \u{2014} review the diff before installing",
                    ),
                )
            },
            None => None,
        }
    }

    /// The draft to write, below the base of the per-user store.
    pub fn save_draft(&self, base: &Option<String>) -> (r: Result<Draft, String>)
        ensures
            drafted_below(r, text::opt(*base), self.path@, self.model.text@),
    {
        match drafts::drafts_dir(base) {
            None => Err(strings::copy("no XDG_CONFIG_HOME or HOME")),
            Some(dir) => Ok(self.save_draft_to(dir)),
        }
    }

    /// The draft to write into a directory.
    pub fn save_draft_to(&self, dir: String) -> (r: Draft)
        ensures
            drafted(r, dir@, self.path@, self.model.text@),
    {
        let path = drafts::draft_path(self.path.as_str(), dir.as_str());
        Draft { dir, path, body: self.serialized() }
    }

    /// What to say of a draft that was written: `now` is what the real file holds, and
    /// `check` the verdict of keyd.
    pub fn draft_saved(
        &self,
        draft: Draft,
        now: &Option<String>,
        check: Option<Result<(), String>>,
    ) -> (r: DraftSaved)
        ensures
            told_of_draft(
                r,
                draft.path@,
                self.path@,
                self.original@,
                text::opt(*now),
                check,
            ),
    {
        DraftSaved {
            install_steps: drafts::install_steps(draft.path.as_str(), self.path.as_str()),
            stale_warning: self.stale_warning(now),
            check,
            draft_path: draft.path,
        }
    }
}

// ---------------------------------------------------------------------------
// Laws
// ---------------------------------------------------------------------------

/// The section offers the name: it shows on a board and its base name is that.
pub open spec fn offers(s: SectionView, name: Seq<char>) -> bool {
    on_board(s.kind) && text::trim(s.base) == name
}

proof fn editable_is_exact(sections: Seq<SectionView>)
    ensures
        editable(sections).no_duplicates(),
        forall|n: Seq<char>| #[trigger]
            editable(sections).contains(n) <==> (n.len() > 0 && exists|i: int|
                0 <= i < sections.len() && offers(#[trigger] sections[i], n)),
    decreases sections.len(),
{
    if sections.len() == 0 {
        assert forall|n: Seq<char>| !(#[trigger] editable(sections).contains(n)) by {}
    } else {
        let front = sections.drop_last();
        editable_is_exact(front);
        let before = editable(front);
        let all = editable(sections);
        let base = text::trim(sections.last().base);
        let grows = on_board(sections.last().kind) && base.len() > 0 && !before.contains(base);
        assert forall|n: Seq<char>| #[trigger] all.contains(n) implies (n.len() > 0 && exists|
            i: int,
        |
            0 <= i < sections.len() && offers(#[trigger] sections[i], n)) by {
            if before.contains(n) {
                let i = choose|i: int| 0 <= i < front.len() && offers(#[trigger] front[i], n);
                assert(sections[i] == front[i]);
            } else {
                let k = choose|k: int| 0 <= k < all.len() && all[k] == n;
                if k < before.len() {
                    assert(before[k] == n);
                }
                assert(n == base);
                assert(offers(sections[sections.len() - 1], n));
            }
        }
        assert forall|n: Seq<char>|
            n.len() > 0 && (exists|i: int|
                0 <= i < sections.len() && offers(#[trigger] sections[i], n)) implies #[trigger] all.contains(
            n,
        ) by {
            let i = choose|i: int| 0 <= i < sections.len() && offers(#[trigger] sections[i], n);
            if i < front.len() {
                assert(front[i] == sections[i]);
                assert(before.contains(n));
                let k = choose|k: int| 0 <= k < before.len() && before[k] == n;
                assert(all[k] == n);
            } else {
                assert(n == base);
                if grows {
                    assert(all[before.len() as int] == n);
                } else {
                    assert(before.contains(n));
                    let k = choose|k: int| 0 <= k < before.len() && before[k] == n;
                    assert(all[k] == n);
                }
            }
        }
    }
}

/// The chooser offers each name once, and exactly the names of sections that the file
/// has and that show on a board: no chip fails when it is clicked.
pub proof fn chooser_offers_what_is_there(sections: Seq<SectionView>, name: Seq<char>)
    ensures
        editable(sections).no_duplicates(),
        editable(sections).contains(name) <==> (name.len() > 0 && exists|i: int|
            0 <= i < sections.len() && offers(#[trigger] sections[i], name)),
{
    editable_is_exact(sections);
}

/// The value under a name: the last one of that name.
pub open spec fn value_under(list: Seq<SettingView>, id: Seq<char>) -> Option<Seq<char>>
    decreases list.len(),
{
    if list.len() == 0 {
        None
    } else if list.last().id == id {
        Some(list.last().val)
    } else {
        value_under(list.drop_last(), id)
    }
}

/// No two settings of the list share a name.
pub open spec fn names_differ(list: Seq<SettingView>) -> bool {
    forall|i: int, j: int|
        0 <= i < j < list.len() ==> (#[trigger] list[i]).id != (#[trigger] list[j]).id
}

proof fn without_is_exact(list: Seq<SettingView>, id: Seq<char>, other: Seq<char>)
    ensures
        value_under(without(list, id), other) == (if other == id {
            None
        } else {
            value_under(list, other)
        }),
        forall|i: int|
            0 <= i < without(list, id).len() ==> (#[trigger] without(list, id)[i]).id != id
                && list.contains(without(list, id)[i]),
        names_differ(list) ==> names_differ(without(list, id)),
    decreases list.len(),
{
    if list.len() > 0 {
        let front = list.drop_last();
        without_is_exact(front, id, other);
        let before = without(front, id);
        let all = without(list, id);
        assert forall|i: int| 0 <= i < all.len() implies (#[trigger] all[i]).id != id
            && list.contains(all[i]) by {
            if i < before.len() {
                assert(before[i] == all[i]);
                let k = choose|k: int| 0 <= k < front.len() && front[k] == before[i];
                assert(list[k] == all[i]);
            } else {
                assert(list[list.len() - 1] == all[i]);
            }
        }
        if list.last().id != id {
            assert(all.drop_last() =~= before);
        }
        if names_differ(list) {
            assert(names_differ(front)) by {
                assert forall|i: int, j: int| 0 <= i < j < front.len() implies (
                #[trigger] front[i]).id != (#[trigger] front[j]).id by {
                    assert(list[i].id != list[j].id);
                }
            }
            assert forall|i: int, j: int| 0 <= i < j < all.len() implies (#[trigger] all[i]).id
                != (#[trigger] all[j]).id by {
                assert(all[i] == before[i]);
                if j < before.len() {
                    assert(all[j] == before[j]);
                } else {
                    let k = choose|k: int| 0 <= k < front.len() && front[k] == before[i];
                    assert(list[k] == before[i]);
                    assert(list[k].id != list[list.len() - 1].id);
                }
            }
        }
    }
}

proof fn put_is_exact(list: Seq<SettingView>, one: SettingView, other: Seq<char>)
    ensures
        value_under(put(list, one), other) == (if other == one.id {
            Some(one.val)
        } else {
            value_under(list, other)
        }),
        names_differ(list) ==> names_differ(put(list, one)),
{
    without_is_exact(list, one.id, other);
    let rest = without(list, one.id);
    assert(put(list, one).drop_last() =~= rest);
    if names_differ(list) {
        assert forall|i: int, j: int| 0 <= i < j < put(list, one).len() implies (
        #[trigger] put(list, one)[i]).id != (#[trigger] put(list, one)[j]).id by {
            assert(put(list, one)[i] == rest[i]);
            if j < rest.len() {
                assert(put(list, one)[j] == rest[j]);
            }
        }
    }
}

/// The action of the last line with the chord; none where no line has it.
pub open spec fn last_action(entries: Seq<EntryView>, chord: Seq<char>) -> Option<Seq<char>>
    decreases entries.len(),
{
    if entries.len() == 0 {
        None
    } else if entries.last().chord == Some(chord) && entries.last().val is Some {
        entries.last().val
    } else {
        last_action(entries.drop_last(), chord)
    }
}

/// The action that the layer's last line with the chord gives it.
pub open spec fn action_in(
    sections: Seq<SectionView>,
    layer: Seq<char>,
    chord: Seq<char>,
) -> Option<Seq<char>>
    decreases sections.len(),
{
    if sections.len() == 0 {
        None
    } else if serves(sections.last(), layer) && last_action(sections.last().entries, chord) is Some {
        last_action(sections.last().entries, chord)
    } else {
        action_in(sections.drop_last(), layer, chord)
    }
}

proof fn put_chords_is_exact(list: Seq<SettingView>, entries: Seq<EntryView>, chord: Seq<char>)
    ensures
        value_under(put_chords(list, entries), chord) == (if last_action(entries, chord) is Some {
            last_action(entries, chord)
        } else {
            value_under(list, chord)
        }),
        names_differ(list) ==> names_differ(put_chords(list, entries)),
    decreases entries.len(),
{
    if entries.len() > 0 {
        put_chords_is_exact(list, entries.drop_last(), chord);
        let before = put_chords(list, entries.drop_last());
        let e = entries.last();
        match (e.chord, e.val) {
            (Some(c), Some(v)) => {
                put_is_exact(before, SettingView { key: e.key, id: c, val: v }, chord);
            },
            _ => {},
        }
    }
}

/// The list of chords holds each chord once, whatever the order in which its keys are
/// spelled, and with the action of the layer's last line for it: the one that keyd goes
/// by. A chord of another layer has no part in it.
pub proof fn last_chord_wins(sections: Seq<SectionView>, layer: Seq<char>, chord: Seq<char>)
    ensures
        names_differ(chords_in(sections, layer)),
        value_under(chords_in(sections, layer), chord) == action_in(sections, layer, chord),
    decreases sections.len(),
{
    if sections.len() > 0 {
        last_chord_wins(sections.drop_last(), layer, chord);
        if serves(sections.last(), layer) {
            put_chords_is_exact(
                chords_in(sections.drop_last(), layer),
                sections.last().entries,
                chord,
            );
        }
    }
}

/// What the last line of the option sets it to.
pub open spec fn last_value(entries: Seq<EntryView>, name: Seq<char>) -> Option<Seq<char>>
    decreases entries.len(),
{
    if entries.len() == 0 {
        None
    } else if entries.last().key == name && entries.last().val is Some {
        entries.last().val
    } else {
        last_value(entries.drop_last(), name)
    }
}

/// The list of options holds each option once, with what its last line sets it to.
pub proof fn last_option_wins(entries: Seq<EntryView>, name: Seq<char>)
    ensures
        names_differ(options_in(entries)),
        value_under(options_in(entries), name) == last_value(entries, name),
    decreases entries.len(),
{
    if entries.len() > 0 {
        last_option_wins(entries.drop_last(), name);
        let before = options_in(entries.drop_last());
        let e = entries.last();
        match e.val {
            Some(v) => {
                put_is_exact(before, SettingView { key: e.key, id: e.key, val: v }, name);
            },
            None => {},
        }
    }
}

/// A line of the layer with the chord.
pub open spec fn is_line(
    sections: Seq<SectionView>,
    layer: Seq<char>,
    chord: Seq<char>,
    i: int,
    k: int,
) -> bool {
    &&& 0 <= i < sections.len()
    &&& serves(sections[i], layer)
    &&& 0 <= k < sections[i].entries.len()
    &&& sections[i].entries[k].chord == Some(chord)
}

/// The edit that removes a key from a section.
pub open spec fn removed(section: int, key: Seq<char>) -> EditView {
    EditView::Remove { section: section as nat, key }
}

/// The edit that removes a line.
pub open spec fn removal(sections: Seq<SectionView>, i: int, k: int) -> EditView {
    EditView::Remove { section: i as nat, key: sections[i].entries[k].key }
}

proof fn removals_cover(entries: Seq<EntryView>, chord: Seq<char>, section: nat, k: int)
    requires
        0 <= k < entries.len(),
        entries[k].chord == Some(chord),
    ensures
        removals(entries, chord, section).contains(
            EditView::Remove { section, key: entries[k].key },
        ),
    decreases entries.len(),
{
    let all = removals(entries, chord, section);
    let one = EditView::Remove { section, key: entries[k].key };
    if k == entries.len() - 1 {
        assert(all[all.len() - 1] == one);
    } else {
        removals_cover(entries.drop_last(), chord, section, k);
        let before = removals(entries.drop_last(), chord, section);
        let at = choose|at: int| 0 <= at < before.len() && before[at] == one;
        assert(all[at] == one);
    }
}

/// Removing a chord removes every line of the layer that spells it, in whatever order:
/// no leftover keeps it bound.
pub proof fn removing_a_chord_leaves_no_spelling(
    sections: Seq<SectionView>,
    layer: Seq<char>,
    chord: Seq<char>,
    i: int,
    k: int,
)
    requires
        is_line(sections, layer, chord, i, k),
    ensures
        all_removals(sections, layer, chord).contains(removal(sections, i, k)),
    decreases sections.len(),
{
    let all = all_removals(sections, layer, chord);
    let before = all_removals(sections.drop_last(), layer, chord);
    let one = removal(sections, i, k);
    if i == sections.len() - 1 {
        removals_cover(sections.last().entries, chord, i as nat, k);
        let here = removals(sections.last().entries, chord, i as nat);
        let at = choose|at: int| 0 <= at < here.len() && here[at] == one;
        assert(all[before.len() + at] == one);
    } else {
        assert(sections.drop_last()[i] == sections[i]);
        removing_a_chord_leaves_no_spelling(sections.drop_last(), layer, chord, i, k);
        let at = choose|at: int| 0 <= at < before.len() && before[at] == one;
        assert(all[at] == one);
    }
}

proof fn removals_are_grounded(entries: Seq<EntryView>, chord: Seq<char>, section: nat, at: int)
    requires
        0 <= at < removals(entries, chord, section).len(),
    ensures
        exists|k: int|
            0 <= k < entries.len() && (#[trigger] entries[k]).chord == Some(chord) && removals(
                entries,
                chord,
                section,
            )[at] == (EditView::Remove { section, key: entries[k].key }),
    decreases entries.len(),
{
    let before = removals(entries.drop_last(), chord, section);
    if at < before.len() {
        removals_are_grounded(entries.drop_last(), chord, section, at);
        let k = choose|k: int|
            0 <= k < entries.drop_last().len() && (#[trigger] entries.drop_last()[k]).chord == Some(
                chord,
            ) && before[at] == (EditView::Remove { section, key: entries.drop_last()[k].key });
        assert(entries[k] == entries.drop_last()[k]);
    } else {
        assert(entries[entries.len() - 1].chord == Some(chord));
    }
}

/// Removing a chord removes nothing but lines of the layer that spell it.
pub proof fn removing_a_chord_removes_nothing_else(
    sections: Seq<SectionView>,
    layer: Seq<char>,
    chord: Seq<char>,
    at: int,
)
    requires
        0 <= at < all_removals(sections, layer, chord).len(),
    ensures
        exists|i: int, k: int| #[trigger]
            is_line(sections, layer, chord, i, k) && all_removals(sections, layer, chord)[at]
                == removal(sections, i, k),
    decreases sections.len(),
{
    let all = all_removals(sections, layer, chord);
    let front = sections.drop_last();
    let before = all_removals(front, layer, chord);
    if at < before.len() {
        removing_a_chord_removes_nothing_else(front, layer, chord, at);
        let (i, k) = choose|i: int, k: int| #[trigger]
            is_line(front, layer, chord, i, k) && before[at] == removal(front, i, k);
        assert(sections[i] == front[i]);
        assert(is_line(sections, layer, chord, i, k));
        assert(all[at] == removal(sections, i, k));
    } else {
        let last = (sections.len() - 1) as nat;
        let entries = sections.last().entries;
        let here = removals(entries, chord, last);
        removals_are_grounded(entries, chord, last, at - before.len());
        let k = choose|k: int|
            0 <= k < entries.len() && (#[trigger] entries[k]).chord == Some(chord) && here[at
                - before.len()] == (EditView::Remove { section: last, key: entries[k].key });
        assert(is_line(sections, layer, chord, last as int, k));
        assert(all[at] == removal(sections, last as int, k));
    }
}

proof fn spelling_is_a_line(entries: Seq<EntryView>, chord: Seq<char>)
    ensures
        match spelling(entries, chord) {
            Some(k) => exists|i: int|
                0 <= i < entries.len() && (#[trigger] entries[i]).chord == Some(chord)
                    && entries[i].key == k,
            None => forall|i: int|
                0 <= i < entries.len() ==> (#[trigger] entries[i]).chord != Some(chord),
        },
    decreases entries.len(),
{
    if entries.len() > 0 && entries[0].chord != Some(chord) {
        let rest = entries.skip(1);
        spelling_is_a_line(rest, chord);
        match spelling(rest, chord) {
            Some(k) => {
                let i = choose|i: int|
                    0 <= i < rest.len() && (#[trigger] rest[i]).chord == Some(chord) && rest[i].key
                        == k;
                assert(entries[i + 1] == rest[i]);
            },
            None => {
                assert forall|i: int| 0 <= i < entries.len() implies (#[trigger] entries[i]).chord
                    != Some(chord) by {
                    if i > 0 {
                        assert(rest[i - 1] == entries[i]);
                    }
                }
            },
        }
    }
}

/// Setting a chord that is there rewrites one of its lines in that line's own spelling,
/// and a new line is added only where no line spells it: no second line for the same keys
/// comes to be.
pub proof fn setting_a_chord_adds_no_second_line(
    layer: Seq<char>,
    key1: Seq<char>,
    key2: Seq<char>,
    action: Seq<char>,
    chord: Seq<char>,
    entries: Seq<EntryView>,
)
    ensures
        match chord_edit(layer, key1, key2, action, chord, Some(entries)) {
            Ok(EditView::Rewrite { key, .. }) => exists|i: int|
                0 <= i < entries.len() && (#[trigger] entries[i]).chord == Some(chord)
                    && entries[i].key == key,
            Ok(EditView::Bind { .. }) => forall|i: int|
                0 <= i < entries.len() ==> (#[trigger] entries[i]).chord != Some(chord),
            Ok(_) => false,
            Err(_) => true,
        },
{
    spelling_is_a_line(entries, chord);
}

// ---------------------------------------------------------------------------
// What edits amount to
// ---------------------------------------------------------------------------

/// What a section of the layer's board binds the key to.
pub open spec fn bound_here(s: SectionView, layer: Seq<char>, key: Seq<char>) -> Option<Seq<char>> {
    if on_board(s.kind) && text::trim(s.base) == layer {
        value_of(s.bound, key)
    } else {
        None
    }
}

/// The sections bind the same keys to the same values, all but the one key of the layer.
pub open spec fn alike_but(
    before: SectionView,
    after: SectionView,
    layer: Seq<char>,
    key: Seq<char>,
) -> bool {
    forall|l: Seq<char>, k: Seq<char>|
        l != layer || k != key ==> bound_here(before, l, k) == #[trigger] bound_here(after, l, k)
}

/// Of a binding made on the sections: it stands in one section of the layer's board, an
/// old one or one added at the end, behind which no other binds the key, and nothing else
/// has changed.
pub open spec fn lands(
    before: Seq<SectionView>,
    after: Seq<SectionView>,
    layer: Seq<char>,
    key: Seq<char>,
    val: Seq<char>,
    at: int,
) -> bool {
    &&& before.len() <= after.len() <= before.len() + 1
    &&& 0 <= at < after.len()
    &&& after.len() > before.len() ==> at == before.len()
    &&& bound_here(after[at], layer, key) == Some(val)
    &&& forall|i: int| 0 <= i < before.len() && i != at ==> after[i] == #[trigger] before[i]
    &&& forall|i: int|
        at < i < after.len() ==> bound_here(#[trigger] after[i], layer, key) is None
    &&& if at < before.len() {
        alike_but(before[at], after[at], layer, key)
    } else {
        forall|l: Seq<char>, k: Seq<char>|
            l != layer || k != key ==> #[trigger] bound_here(after[at], l, k) is None
    }
}

/// Of a key cleared from the sections: no section of the layer's board binds it, and
/// nothing else has changed.
pub open spec fn lifted(
    before: Seq<SectionView>,
    after: Seq<SectionView>,
    layer: Seq<char>,
    key: Seq<char>,
) -> bool {
    &&& after.len() == before.len()
    &&& forall|i: int|
        0 <= i < after.len() ==> bound_here(#[trigger] after[i], layer, key) is None && alike_but(
            before[i],
            after[i],
            layer,
            key,
        )
}

/// The lines of a section that the edits leave.
pub open spec fn lines_left(entries: Seq<EntryView>, edits: Seq<EditView>, section: nat) -> Seq<
    EntryView,
>
    decreases entries.len(),
{
    if entries.len() == 0 {
        Seq::empty()
    } else {
        let before = lines_left(entries.drop_last(), edits, section);
        if edits.contains(EditView::Remove { section, key: entries.last().key }) {
            before
        } else {
            before.push(entries.last())
        }
    }
}

/// Of lines removed from the sections: each section has the lines that the edits leave, in
/// their order, binds none of the keys that they name, and has not changed otherwise.
pub open spec fn struck(
    before: Seq<SectionView>,
    edits: Seq<EditView>,
    after: Seq<SectionView>,
) -> bool {
    &&& after.len() == before.len()
    &&& forall|i: int|
        0 <= i < after.len() ==> {
            &&& (#[trigger] after[i]).kind == before[i].kind
            &&& after[i].base == before[i].base
            &&& after[i].entries == lines_left(before[i].entries, edits, i as nat)
            &&& forall|k: Seq<char>|
                #[trigger] value_of(after[i].bound, k) == (if edits.contains(
                    EditView::Remove { section: i as nat, key: k },
                ) {
                    None
                } else {
                    value_of(before[i].bound, k)
                })
        }
}

/// The same key is the same chord on every line.
pub open spec fn chords_by_key(sections: Seq<SectionView>) -> bool {
    forall|i: int, k: int, j: int, l: int|
        0 <= i < sections.len() && 0 <= k < sections[i].entries.len() && 0 <= j < sections.len()
            && 0 <= l < sections[j].entries.len() && (#[trigger] sections[i].entries[k]).key == (
        #[trigger] sections[j].entries[l]).key ==> sections[i].entries[k].chord
            == sections[j].entries[l].chord
}

proof fn same_bindings(
    a: Seq<SectionView>,
    b: Seq<SectionView>,
    layer: Seq<char>,
    key: Seq<char>,
)
    requires
        a.len() == b.len(),
        forall|i: int|
            0 <= i < a.len() ==> bound_here(#[trigger] a[i], layer, key) == bound_here(
                b[i],
                layer,
                key,
            ),
    ensures
        binding_in(a, layer, key) == binding_in(b, layer, key),
    decreases a.len(),
{
    if a.len() > 0 {
        assert(bound_here(a[a.len() - 1], layer, key) == bound_here(b[b.len() - 1], layer, key));
        assert forall|i: int| 0 <= i < a.drop_last().len() implies bound_here(
            #[trigger] a.drop_last()[i],
            layer,
            key,
        ) == bound_here(b.drop_last()[i], layer, key) by {
            assert(bound_here(a[i], layer, key) == bound_here(b[i], layer, key));
        }
        same_bindings(a.drop_last(), b.drop_last(), layer, key);
    }
}

proof fn last_binding(a: Seq<SectionView>, layer: Seq<char>, key: Seq<char>, at: int)
    requires
        0 <= at < a.len(),
        bound_here(a[at], layer, key) is Some,
        forall|i: int| at < i < a.len() ==> bound_here(#[trigger] a[i], layer, key) is None,
    ensures
        binding_in(a, layer, key) == bound_here(a[at], layer, key),
    decreases a.len(),
{
    if at < a.len() - 1 {
        assert(bound_here(a[a.len() - 1], layer, key) is None);
        assert forall|i: int| at < i < a.drop_last().len() implies bound_here(
            #[trigger] a.drop_last()[i],
            layer,
            key,
        ) is None by {
            assert(bound_here(a[i], layer, key) is None);
        }
        last_binding(a.drop_last(), layer, key, at);
    }
}

proof fn no_binding(a: Seq<SectionView>, layer: Seq<char>, key: Seq<char>)
    requires
        forall|i: int| 0 <= i < a.len() ==> bound_here(#[trigger] a[i], layer, key) is None,
    ensures
        binding_in(a, layer, key) is None,
    decreases a.len(),
{
    if a.len() > 0 {
        assert(bound_here(a[a.len() - 1], layer, key) is None);
        assert forall|i: int| 0 <= i < a.drop_last().len() implies bound_here(
            #[trigger] a.drop_last()[i],
            layer,
            key,
        ) is None by {
            assert(bound_here(a[i], layer, key) is None);
        }
        no_binding(a.drop_last(), layer, key);
    }
}

/// A binding that was made is read back on its layer's board, and no other key of any
/// board reads differently for it.
pub proof fn a_binding_is_read_back(
    before: Seq<SectionView>,
    after: Seq<SectionView>,
    layer: Seq<char>,
    key: Seq<char>,
    val: Seq<char>,
    at: int,
)
    requires
        lands(before, after, layer, key, val, at),
    ensures
        binding_in(after, layer, key) == Some(val),
        forall|l: Seq<char>, k: Seq<char>|
            l != layer || k != key ==> #[trigger] binding_in(after, l, k) == binding_in(
                before,
                l,
                k,
            ),
{
    last_binding(after, layer, key, at);
    assert forall|l: Seq<char>, k: Seq<char>| l != layer || k != key implies #[trigger] binding_in(
        after,
        l,
        k,
    ) == binding_in(before, l, k) by {
        let old_part = after.subrange(0, before.len() as int);
        assert forall|i: int| 0 <= i < before.len() implies bound_here(#[trigger] old_part[i], l, k)
            == bound_here(before[i], l, k) by {
            assert(old_part[i] == after[i]);
            if i != at {
                assert(after[i] == before[i]);
            }
        }
        same_bindings(old_part, before, l, k);
        if after.len() > before.len() {
            assert(after.drop_last() =~= old_part);
            assert(bound_here(after[at], l, k) is None);
        } else {
            assert(old_part =~= after);
        }
    }
}

/// A key that was cleared is bound to nothing on its layer's board, and no other key of
/// any board reads differently for it.
pub proof fn a_cleared_key_is_unbound(
    before: Seq<SectionView>,
    after: Seq<SectionView>,
    layer: Seq<char>,
    key: Seq<char>,
)
    requires
        lifted(before, after, layer, key),
    ensures
        binding_in(after, layer, key) is None,
        forall|l: Seq<char>, k: Seq<char>|
            l != layer || k != key ==> #[trigger] binding_in(after, l, k) == binding_in(
                before,
                l,
                k,
            ),
{
    no_binding(after, layer, key);
    assert forall|l: Seq<char>, k: Seq<char>| l != layer || k != key implies #[trigger] binding_in(
        after,
        l,
        k,
    ) == binding_in(before, l, k) by {
        assert forall|i: int| 0 <= i < after.len() implies bound_here(#[trigger] after[i], l, k)
            == bound_here(before[i], l, k) by {
            assert(alike_but(before[i], after[i], layer, key));
        }
        same_bindings(after, before, l, k);
    }
}

/// The lines that do not spell the chord.
spec fn lines_off(entries: Seq<EntryView>, chord: Seq<char>) -> Seq<EntryView>
    decreases entries.len(),
{
    if entries.len() == 0 {
        Seq::empty()
    } else {
        let before = lines_off(entries.drop_last(), chord);
        if entries.last().chord == Some(chord) {
            before
        } else {
            before.push(entries.last())
        }
    }
}

proof fn without_twice(list: Seq<SettingView>, a: Seq<char>, b: Seq<char>)
    ensures
        without(without(list, a), b) == without(without(list, b), a),
        a == b ==> without(without(list, a), b) == without(list, a),
    decreases list.len(),
{
    if list.len() > 0 {
        let front = list.drop_last();
        without_twice(front, a, b);
        let one = list.last();
        if one.id != a {
            assert(without(front, a).push(one).drop_last() =~= without(front, a));
        }
        if one.id != b {
            assert(without(front, b).push(one).drop_last() =~= without(front, b));
        }
    }
}

proof fn without_after_put(list: Seq<SettingView>, one: SettingView, id: Seq<char>)
    ensures
        without(put(list, one), id) == (if one.id == id {
            without(list, id)
        } else {
            put(without(list, id), one)
        }),
{
    let rest = without(list, one.id);
    assert(rest.push(one).drop_last() =~= rest);
    without_twice(list, one.id, id);
}

proof fn chords_of_lines_off(list: Seq<SettingView>, entries: Seq<EntryView>, chord: Seq<char>)
    ensures
        put_chords(without(list, chord), lines_off(entries, chord)) == without(
            put_chords(list, entries),
            chord,
        ),
    decreases entries.len(),
{
    if entries.len() > 0 {
        let front = entries.drop_last();
        chords_of_lines_off(list, front, chord);
        let e = entries.last();
        let before = lines_off(front, chord);
        if e.chord != Some(chord) {
            assert(before.push(e).drop_last() =~= before);
        }
        match (e.chord, e.val) {
            (Some(c), Some(v)) => {
                let one = SettingView { key: e.key, id: c, val: v };
                without_after_put(put_chords(list, front), one, chord);
            },
            _ => {},
        }
    }
}

proof fn chords_without(
    before: Seq<SectionView>,
    after: Seq<SectionView>,
    layer: Seq<char>,
    chord: Seq<char>,
)
    requires
        after.len() == before.len(),
        forall|i: int|
            0 <= i < after.len() ==> (#[trigger] after[i]).kind == before[i].kind && after[i].base
                == before[i].base && (serves(before[i], layer) ==> after[i].entries == lines_off(
                before[i].entries,
                chord,
            )),
    ensures
        chords_in(after, layer) == without(chords_in(before, layer), chord),
    decreases before.len(),
{
    if before.len() > 0 {
        let (b, a) = (before.drop_last(), after.drop_last());
        assert forall|i: int| 0 <= i < a.len() implies (#[trigger] a[i]).kind == b[i].kind
            && a[i].base == b[i].base && (serves(b[i], layer) ==> a[i].entries == lines_off(
            b[i].entries,
            chord,
        )) by {
            assert(a[i] == after[i] && b[i] == before[i]);
        }
        chords_without(b, a, layer, chord);
        assert(after[after.len() - 1].kind == before[before.len() - 1].kind);
        if serves(before.last(), layer) {
            chords_of_lines_off(chords_in(b, layer), before.last().entries, chord);
        }
    }
}

proof fn same_chords(before: Seq<SectionView>, after: Seq<SectionView>, layer: Seq<char>)
    requires
        after.len() == before.len(),
        forall|i: int|
            0 <= i < after.len() ==> (#[trigger] after[i]).kind == before[i].kind && after[i].base
                == before[i].base && (serves(before[i], layer) ==> after[i].entries
                == before[i].entries),
    ensures
        chords_in(after, layer) == chords_in(before, layer),
    decreases before.len(),
{
    if before.len() > 0 {
        let (b, a) = (before.drop_last(), after.drop_last());
        assert forall|i: int| 0 <= i < a.len() implies (#[trigger] a[i]).kind == b[i].kind
            && a[i].base == b[i].base && (serves(b[i], layer) ==> a[i].entries == b[i].entries) by {
            assert(a[i] == after[i] && b[i] == before[i]);
        }
        same_chords(b, a, layer);
        assert(after[after.len() - 1].kind == before[before.len() - 1].kind);
    }
}

proof fn left_is_off(
    sections: Seq<SectionView>,
    layer: Seq<char>,
    chord: Seq<char>,
    i: int,
    n: int,
)
    requires
        chords_by_key(sections),
        0 <= i < sections.len(),
        0 <= n <= sections[i].entries.len(),
    ensures
        ({
            let edits = all_removals(sections, layer, chord);
            let lines = sections[i].entries.subrange(0, n);
            lines_left(lines, edits, i as nat) == (if serves(sections[i], layer) {
                lines_off(lines, chord)
            } else {
                lines
            })
        }),
    decreases n,
{
    let edits = all_removals(sections, layer, chord);
    let lines = sections[i].entries.subrange(0, n);
    if n > 0 {
        left_is_off(sections, layer, chord, i, n - 1);
        assert(lines.drop_last() =~= sections[i].entries.subrange(0, n - 1));
        let e = sections[i].entries[n - 1];
        assert(lines.last() == e);
        let one = EditView::Remove { section: i as nat, key: e.key };
        if edits.contains(one) {
            let at = choose|at: int| 0 <= at < edits.len() && edits[at] == one;
            removing_a_chord_removes_nothing_else(sections, layer, chord, at);
            let (j, k) = choose|j: int, k: int| #[trigger]
                is_line(sections, layer, chord, j, k) && edits[at] == removal(sections, j, k);
            assert(j == i);
            assert(sections[i].entries[n - 1].key == sections[j].entries[k].key);
        } else if serves(sections[i], layer) && e.chord == Some(chord) {
            assert(is_line(sections, layer, chord, i, n - 1));
            removing_a_chord_leaves_no_spelling(sections, layer, chord, i, n - 1);
        }
        if !edits.contains(one) {
            assert(lines =~= lines.drop_last().push(e));
        }
    }
}

proof fn no_removals_off(entries: Seq<EntryView>, chord: Seq<char>, section: nat)
    ensures
        removals(lines_off(entries, chord), chord, section).len() == 0,
    decreases entries.len(),
{
    if entries.len() > 0 {
        no_removals_off(entries.drop_last(), chord, section);
        let before = lines_off(entries.drop_last(), chord);
        assert(before.push(entries.last()).drop_last() =~= before);
    }
}

proof fn nothing_to_remove(
    before: Seq<SectionView>,
    after: Seq<SectionView>,
    layer: Seq<char>,
    chord: Seq<char>,
)
    requires
        after.len() == before.len(),
        forall|i: int|
            0 <= i < after.len() ==> (#[trigger] after[i]).kind == before[i].kind && after[i].base
                == before[i].base && (serves(before[i], layer) ==> after[i].entries == lines_off(
                before[i].entries,
                chord,
            )),
    ensures
        all_removals(after, layer, chord).len() == 0,
    decreases before.len(),
{
    if before.len() > 0 {
        let (b, a) = (before.drop_last(), after.drop_last());
        assert forall|i: int| 0 <= i < a.len() implies (#[trigger] a[i]).kind == b[i].kind
            && a[i].base == b[i].base && (serves(b[i], layer) ==> a[i].entries == lines_off(
            b[i].entries,
            chord,
        )) by {
            assert(a[i] == after[i] && b[i] == before[i]);
        }
        nothing_to_remove(b, a, layer, chord);
        assert(after[after.len() - 1].kind == before[before.len() - 1].kind);
        if serves(after.last(), layer) {
            no_removals_off(before.last().entries, chord, (after.len() - 1) as nat);
        }
    }
}

/// A chord that was removed is off its layer's list, in whatever order its lines spelled
/// it, and nothing else is: the other chords of the layer and those of other layers are
/// listed as before, keys that no removed line names are bound as before, and removing the
/// chord again finds nothing to remove.
pub proof fn a_removed_chord_is_gone(
    before: Seq<SectionView>,
    after: Seq<SectionView>,
    layer: Seq<char>,
    chord: Seq<char>,
)
    requires
        chords_by_key(before),
        struck(before, all_removals(before, layer, chord), after),
    ensures
        chords_in(after, layer) == without(chords_in(before, layer), chord),
        forall|other: Seq<char>|
            other != layer ==> #[trigger] chords_in(after, other) == chords_in(before, other),
        forall|l: Seq<char>, k: Seq<char>|
            (forall|i: int|
                0 <= i < before.len() ==> !all_removals(before, layer, chord).contains(
                    #[trigger] removed(i, k),
                )) ==> #[trigger] binding_in(after, l, k) == binding_in(before, l, k),
        all_removals(after, layer, chord).len() == 0,
{
    let edits = all_removals(before, layer, chord);
    assert forall|i: int| 0 <= i < after.len() implies (#[trigger] after[i]).kind == before[i].kind
        && after[i].base == before[i].base && after[i].entries == (if serves(before[i], layer) {
        lines_off(before[i].entries, chord)
    } else {
        before[i].entries
    }) by {
        let lines = before[i].entries;
        left_is_off(before, layer, chord, i, lines.len() as int);
        assert(lines.subrange(0, lines.len() as int) =~= lines);
    }
    chords_without(before, after, layer, chord);
    nothing_to_remove(before, after, layer, chord);
    assert forall|other: Seq<char>| other != layer implies #[trigger] chords_in(after, other)
        == chords_in(before, other) by {
        same_chords(before, after, other);
    }
    assert forall|l: Seq<char>, k: Seq<char>|
        (forall|i: int| 0 <= i < before.len() ==> !edits.contains(#[trigger] removed(i, k)))
        implies #[trigger] binding_in(after, l, k) == binding_in(before, l, k) by {
        assert forall|i: int| 0 <= i < after.len() implies bound_here(#[trigger] after[i], l, k)
            == bound_here(before[i], l, k) by {
            assert(!edits.contains(removed(i, k)));
            assert(value_of(after[i].bound, k) == value_of(before[i].bound, k));
        }
        same_bindings(after, before, l, k);
    }
}

/// Removing a chord that no line of the layer spells leaves every line and every binding
/// as it was.
pub proof fn removing_no_chord_changes_nothing(
    before: Seq<SectionView>,
    after: Seq<SectionView>,
    layer: Seq<char>,
    chord: Seq<char>,
    i: int,
)
    requires
        struck(before, all_removals(before, layer, chord), after),
        forall|j: int, k: int| !(#[trigger] is_line(before, layer, chord, j, k)),
        0 <= i < after.len(),
    ensures
        after[i].entries == before[i].entries,
        forall|k: Seq<char>|
            #[trigger] value_of(after[i].bound, k) == value_of(before[i].bound, k),
{
    let edits = all_removals(before, layer, chord);
    if edits.len() > 0 {
        removing_a_chord_removes_nothing_else(before, layer, chord, 0);
    }
    all_lines_left(before[i].entries, edits, i as nat);
}

proof fn all_lines_left(entries: Seq<EntryView>, edits: Seq<EditView>, section: nat)
    requires
        edits.len() == 0,
    ensures
        lines_left(entries, edits, section) == entries,
    decreases entries.len(),
{
    if entries.len() > 0 {
        all_lines_left(entries.drop_last(), edits, section);
        assert(entries.drop_last().push(entries.last()) =~= entries);
    }
}

// ---------------------------------------------------------------------------
// What a session does
// ---------------------------------------------------------------------------

/// A file may be edited exactly where the model reproduces it and no finding says that keyd
/// rejects it; else the first reason is given.
pub proof fn only_a_faithful_model_is_edited(round_trips: bool, found: Seq<Seq<char>>, i: int)
    ensures
        gate_of(round_trips, found) is None <==> round_trips && forall|k: int|
            0 <= k < found.len() ==> !text::has_part(#[trigger] found[k], "rejects"@),
        !round_trips ==> gate_of(round_trips, found) == Some(ViewOnlyView::RoundTripGate),
        round_trips && 0 <= i < found.len() && text::has_part(found[i], "rejects"@) && (forall|
            k: int,
        |
            0 <= k < i ==> !text::has_part(#[trigger] found[k], "rejects"@)) ==> gate_of(
            round_trips,
            found,
        ) == Some(ViewOnlyView::KeydRejects(found[i])),
{
    first_rejection_is_first(found, i);
}

proof fn first_rejection_is_first(found: Seq<Seq<char>>, i: int)
    ensures
        first_rejection(found) is None <==> forall|k: int|
            0 <= k < found.len() ==> !text::has_part(#[trigger] found[k], "rejects"@),
        0 <= i < found.len() && text::has_part(found[i], "rejects"@) && (forall|k: int|
            0 <= k < i ==> !text::has_part(#[trigger] found[k], "rejects"@)) ==> first_rejection(
            found,
        ) == Some(found[i]),
    decreases found.len(),
{
    if found.len() > 0 {
        let rest = found.skip(1);
        first_rejection_is_first(rest, i - 1);
        assert(forall|k: int| 0 <= k < rest.len() ==> #[trigger] rest[k] == found[k + 1]);
        if forall|k: int| 0 <= k < rest.len() ==> !text::has_part(#[trigger] rest[k], "rejects"@) {
            assert forall|k: int| 1 <= k < found.len() implies !text::has_part(
                #[trigger] found[k],
                "rejects"@,
            ) by {
                assert(found[k] == rest[k - 1]);
            }
        } else {
            let k = choose|k: int|
                0 <= k < rest.len() && text::has_part(#[trigger] rest[k], "rejects"@);
            assert(text::has_part(found[k + 1], "rejects"@));
        }
        if 0 < i {
            assert(!text::has_part(found[0], "rejects"@) || !(forall|k: int|
                0 <= k < i ==> !text::has_part(#[trigger] found[k], "rejects"@)));
        }
    }
}

/// Each reason is told in its own words: why the file could not be read, or what keyd said.
pub proof fn each_reason_is_told(words: Seq<char>)
    ensures
        why(ViewOnlyView::Unreadable(words)) == "can't read config: "@ + words,
        why(ViewOnlyView::KeydRejects(words)) == "view-only: "@ + words,
        why(ViewOnlyView::RoundTripGate)
            == "view-only: this file can't be reproduced byte-for-byte"@,
{
}

/// A file that was opened starts clean: nothing is to be persisted before an edit, the file
/// as it was read is no change under the session, any other content is, and a model that
/// writes what was read shows no difference. One that could not be read is not opened.
pub proof fn an_opened_file_starts_clean(
    r: Result<EditSession, ViewOnly>,
    path: Seq<char>,
    content: Result<String, String>,
    model: Model,
    now: Seq<char>,
)
    requires
        opened(r, path, content, None, model),
    ensures
        r is Ok <==> content is Ok,
        content is Err ==> r->Err_0@ == ViewOnlyView::Unreadable(content->Err_0@),
        r is Ok ==> {
            let s = r->Ok_0;
            &&& s.path@ == path && s.model == model
            &&& to_persist(s.created, s.model.edited) <==> model.edited
            &&& stale_notice(s.path@, s.original@, Some(content->Ok_0@)) is None
            &&& now != content->Ok_0@ ==> stale_notice(s.path@, s.original@, Some(now)) is Some
            &&& model.text@ == content->Ok_0@ ==> diff::diff_of(
                s.original@,
                s.model.text@,
            ).len() == 0
        },
{
    if r is Ok {
        diff::no_change_shows_nothing(r->Ok_0.original@, model.text@);
    }
}

/// Nothing is opened or created that is barred, and the reason is handed on.
pub proof fn what_is_barred_is_not_edited(
    r: Result<EditSession, ViewOnly>,
    path: Seq<char>,
    content: Result<String, String>,
    barred: ViewOnlyView,
    model: Model,
)
    ensures
        opened(r, path, content, Some(barred), model) ==> r is Err && (content is Ok
            ==> r->Err_0@ == barred),
        started(r, path, Some(barred), model) ==> r is Err && r->Err_0@ == barred,
{
}

/// A config that is created has its content to persist before the first edit, and all of it
/// is new.
pub proof fn a_new_config_is_all_new(
    r: Result<EditSession, ViewOnly>,
    path: Seq<char>,
    model: Model,
)
    requires
        started(r, path, None, model),
    ensures
        r is Ok,
        r->Ok_0.path@ == path,
        r->Ok_0.model == model,
        r->Ok_0.created,
        to_persist(r->Ok_0.created, r->Ok_0.model.edited),
        text::lines(r->Ok_0.original@).len() == 0,
{
    let none = r->Ok_0.original@;
    assert(none =~= Seq::<char>::empty());
    assert(text::split(none, '\n') == seq![Seq::<char>::empty()]);
}

/// There is something to persist where an edit was made or the config is new, and nowhere
/// else.
pub proof fn an_edit_is_to_be_persisted(created: bool, edited: bool)
    ensures
        to_persist(created, true) && to_persist(true, edited) && !to_persist(false, false),
{
}

/// A binding is made as it was asked for, and an edit that has no section to go to says which
/// one is missing. What is not on a board is not cleared.
pub proof fn a_binding_is_made_as_asked(
    sections: Seq<SectionView>,
    layer: Seq<char>,
    key: Seq<char>,
    val: Seq<char>,
)
    ensures
        bind_edit(layer, key, val, true) == Ok::<EditView, Seq<char>>(
            EditView::Bind { layer, key, val },
        ),
        bind_edit(layer, key, val, false) == Err::<EditView, Seq<char>>(
            "this config has no ["@ + layer + "] section"@,
        ),
        unbind_edit(sections, layer, key) is Ok <==> layer.len() > 0 && exists|i: int|
            0 <= i < sections.len() && offers(#[trigger] sections[i], layer),
        unbind_edit(sections, layer, key) is Ok ==> unbind_edit(sections, layer, key)->Ok_0 == (
        EditView::Unbind { layer, key }),
        unbind_edit(sections, layer, key) is Err ==> unbind_edit(sections, layer, key)->Err_0
            == "this config has no ["@ + layer + "] section"@,
{
    chooser_offers_what_is_there(sections, layer);
}

/// Every section that shows on a board is offered under its name, and only those are: the
/// base, a layer and a composite of layers.
pub proof fn boards_show_layers(s: SectionView, name: Seq<char>)
    ensures
        offers(s, name) <==> s.kind != SectionKind::Other && text::trim(s.base) == name,
        serves(s, "main"@) <==> s.kind == SectionKind::Main,
        name != "main"@ ==> (serves(s, name) <==> (s.kind == SectionKind::Layer || s.kind
            == SectionKind::Composite) && text::trim(s.base) == name),
{
}

/// The last section of a board that binds a key decides, and in a section the first binding
/// of the key; a key that no section of the board binds is bound to nothing.
pub proof fn the_last_section_decides(
    sections: Seq<SectionView>,
    layer: Seq<char>,
    key: Seq<char>,
    i: int,
    k: int,
)
    requires
        0 <= i < sections.len(),
        sections[i].kind != SectionKind::Other,
        text::trim(sections[i].base) == layer,
        0 <= k < sections[i].bound.len(),
        sections[i].bound[k].key == key,
        forall|j: int| 0 <= j < k ==> (#[trigger] sections[i].bound[j]).key != key,
        forall|j: int|
            i < j < sections.len() && (#[trigger] sections[j]).kind != SectionKind::Other
                && text::trim(sections[j].base) == layer ==> !binds(sections[j], key),
    ensures
        binding_in(sections, layer, key) == Some(sections[i].bound[k].val),
{
    first_value(sections[i].bound, key, k);
    assert forall|j: int| i < j < sections.len() implies bound_here(
        #[trigger] sections[j],
        layer,
        key,
    ) is None by {
        unbound_value(sections[j].bound, key);
    }
    last_binding(sections, layer, key, i);
}

/// Some binding of the section is for the key.
pub open spec fn binds(s: SectionView, key: Seq<char>) -> bool {
    exists|k: int| 0 <= k < s.bound.len() && (#[trigger] s.bound[k]).key == key
}

proof fn first_value(bound: Seq<BoundView>, key: Seq<char>, k: int)
    requires
        0 <= k < bound.len(),
        bound[k].key == key,
        forall|j: int| 0 <= j < k ==> (#[trigger] bound[j]).key != key,
    ensures
        value_of(bound, key) == Some(bound[k].val),
    decreases bound.len(),
{
    if k > 0 {
        let rest = bound.skip(1);
        assert(bound[0].key != key);
        assert forall|j: int| 0 <= j < k - 1 implies (#[trigger] rest[j]).key != key by {
            assert(rest[j] == bound[j + 1]);
        }
        assert(rest[k - 1] == bound[k]);
        first_value(rest, key, k - 1);
    }
}

proof fn unbound_value(bound: Seq<BoundView>, key: Seq<char>)
    ensures
        (forall|k: int| 0 <= k < bound.len() ==> (#[trigger] bound[k]).key != key) ==> value_of(
            bound,
            key,
        ) is None,
    decreases bound.len(),
{
    if bound.len() > 0 && forall|k: int|
        0 <= k < bound.len() ==> (#[trigger] bound[k]).key != key {
        let rest = bound.skip(1);
        assert(bound[0].key != key);
        assert forall|k: int| 0 <= k < rest.len() implies (#[trigger] rest[k]).key != key by {
            assert(rest[k] == bound[k + 1]);
        }
        unbound_value(rest, key);
    }
}

/// A key that no section of the layer's board binds is bound to nothing there.
pub proof fn an_unbound_key_has_no_binding(
    sections: Seq<SectionView>,
    layer: Seq<char>,
    key: Seq<char>,
)
    requires
        forall|j: int|
            0 <= j < sections.len() && (#[trigger] sections[j]).kind != SectionKind::Other
                && text::trim(sections[j].base) == layer ==> !binds(sections[j], key),
    ensures
        binding_in(sections, layer, key) is None,
{
    assert forall|j: int| 0 <= j < sections.len() implies bound_here(
        #[trigger] sections[j],
        layer,
        key,
    ) is None by {
        unbound_value(sections[j].bound, key);
    }
    no_binding(sections, layer, key);
}

/// A tap/hold is bound as it was composed, over any binding but one of the form that the
/// panel can't take apart, which is kept.
pub proof fn an_advanced_tap_hold_is_kept(
    current: Option<Seq<char>>,
    form: Option<Seq<char>>,
    layer: Seq<char>,
    key: Seq<char>,
    composed: Seq<char>,
    target: bool,
)
    ensures
        ({
            let r = tap_hold_edit(current, form, layer, key, composed, target);
            let advanced = current is Some && form == Some("overloadi"@);
            &&& r is Ok <==> !advanced && target
            &&& r is Ok ==> r->Ok_0 == (EditView::Bind { layer, key, val: composed })
            &&& !advanced && !target ==> r->Err_0 == "this config has no ["@ + layer
                + "] section"@
            &&& advanced ==> r->Err_0
                == "this key uses keyd's advanced overloadi() form \u{2014} switch to simple mode to edit it as text"@
        }),
{
}

/// A macro is bound as it is written, exactly where it has a step, reads back as itself, has
/// a section to go to, and takes the place of no macro that can't be taken apart; else the
/// first of these is said.
pub proof fn a_macro_is_written_only_if_it_reads_back(
    current: Option<Seq<char>>,
    form: Option<Seq<char>>,
    modelled: bool,
    layer: Seq<char>,
    key: Seq<char>,
    steps: nat,
    written: Seq<char>,
    again: Option<Seq<char>>,
    target: bool,
)
    ensures
        ({
            let r = macro_edit(current, form, modelled, layer, key, steps, written, again, target);
            let advanced = current is Some && (form == Some("macro"@) || form == Some("macro2"@))
                && !modelled;
            &&& r is Ok <==> steps > 0 && !advanced && again == Some(written) && target
            &&& r is Ok ==> r->Ok_0 == (EditView::Bind { layer, key, val: written })
            &&& steps == 0 ==> r->Err_0 == "a macro needs at least one step"@
            &&& steps > 0 && advanced ==> r->Err_0
                == "this key uses an advanced macro form keyd-viz can't edit \u{2014} switch to simple mode to edit it as text"@
            &&& steps > 0 && !advanced && again != Some(written) ==> r->Err_0
                == "this macro has text keyd can\u{2019}t type \u{2014} remove any parentheses and try again"@
            &&& steps > 0 && !advanced && again == Some(written) && !target ==> r->Err_0
                == "this config has no ["@ + layer + "] section"@
        }),
{
}

/// A chord needs two keys that differ and an action, white space not counted. One that is
/// there already, in whatever order of its keys, is rewritten under its own spelling, that of
/// the first such line; one that is not is added under the two keys as they were picked.
pub proof fn a_chord_is_set_under_its_spelling(
    layer: Seq<char>,
    key1: Seq<char>,
    key2: Seq<char>,
    action: Seq<char>,
    chord: Seq<char>,
    entries: Seq<EntryView>,
    i: int,
)
    ensures
        ({
            let r = chord_edit(layer, key1, key2, action, chord, Some(entries));
            let a = text::trim(key1);
            let b = text::trim(key2);
            let act = text::trim(action);
            let none = forall|k: int|
                0 <= k < entries.len() ==> (#[trigger] entries[k]).chord != Some(chord);
            &&& r is Ok <==> a.len() > 0 && b.len() > 0 && a != b && act.len() > 0
            &&& a.len() == 0 || b.len() == 0 ==> r->Err_0 == "pick two keys for the chord"@
            &&& a.len() > 0 && a == b ==> r->Err_0 == "a chord needs two different keys"@
            &&& a.len() > 0 && b.len() > 0 && a != b && act.len() == 0 ==> r->Err_0
                == "enter an action for the chord"@
            &&& r is Ok && none ==> r->Ok_0 == (EditView::Bind {
                layer,
                key: a + seq!['+'] + b,
                val: act,
            })
            &&& r is Ok && 0 <= i < entries.len() && entries[i].chord == Some(chord) && (forall|
                k: int,
            |
                0 <= k < i ==> (#[trigger] entries[k]).chord != Some(chord)) ==> r->Ok_0 == (
            EditView::Rewrite { layer, key: entries[i].key, val: act })
        }),
        chord_edit(layer, key1, key2, action, chord, None) is Err,
{
    reveal_strlit("+");
    assert("+"@ =~= seq!['+']);
    spelling_is_that_of_the_first(entries, chord, i);
}

proof fn spelling_is_that_of_the_first(entries: Seq<EntryView>, chord: Seq<char>, i: int)
    ensures
        (forall|k: int| 0 <= k < entries.len() ==> (#[trigger] entries[k]).chord != Some(chord))
            ==> spelling(entries, chord) is None,
        0 <= i < entries.len() && entries[i].chord == Some(chord) && (forall|k: int|
            0 <= k < i ==> (#[trigger] entries[k]).chord != Some(chord)) ==> spelling(
            entries,
            chord,
        ) == Some(entries[i].key),
    decreases entries.len(),
{
    if entries.len() > 0 {
        let rest = entries.skip(1);
        spelling_is_that_of_the_first(rest, chord, i - 1);
        assert(forall|k: int| 0 <= k < rest.len() ==> #[trigger] rest[k] == entries[k + 1]);
        assert(entries[0] == entries[0]);
    }
}

/// An option is set to what was typed, white space around it not counted; an empty value
/// clears it, as clearing it does, and without a name nothing is done.
pub proof fn an_empty_value_clears_the_option(name: Seq<char>, value: Seq<char>)
    ensures
        ({
            let n = text::trim(name);
            let v = text::trim(value);
            &&& n.len() == 0 ==> option_edit(name, value) == Err::<EditView, Seq<char>>(
                "missing option name"@,
            )
            &&& n.len() > 0 && v.len() > 0 ==> option_edit(name, value) == Ok::<
                EditView,
                Seq<char>,
            >(EditView::SetGlobal { name: n, val: v })
            &&& n.len() > 0 && v.len() == 0 ==> option_edit(name, value) == Ok::<
                EditView,
                Seq<char>,
            >(option_cleared(name))
            &&& option_cleared(name) == (EditView::ClearGlobal { name: n })
        }),
{
}

/// A layer that was added or renamed goes by the name that was typed, white space around it
/// not counted; what was refused is told in the model's own words. A layer is deleted exactly
/// where it was there.
pub proof fn a_layer_goes_by_the_name_typed(
    name: Seq<char>,
    answer: Result<(), String>,
    r: Result<(), String>,
    removed: bool,
)
    ensures
        answer is Ok ==> layer_called(name, answer) == Ok::<Seq<char>, Seq<char>>(text::trim(name)),
        answer is Err ==> layer_called(name, answer) == Err::<Seq<char>, Seq<char>>(
            answer->Err_0@,
        ),
        deleted(r, name, removed) ==> (removed ==> r is Ok) && (!removed ==> r is Err && r->Err_0@
            == "this config has no ["@ + name + "] layer"@),
{
}

/// A file that changed is warned of by its path; one that could not be read, or reads as it
/// did, is not.
pub proof fn a_change_under_the_session_is_told(
    path: Seq<char>,
    original: Seq<char>,
    now: Seq<char>,
)
    ensures
        now != original ==> stale_notice(path, original, Some(now)) == Some(
            path
                + " changed on disk since this session opened \u{2014} review the diff before installing"@,
        ),
        stale_notice(path, original, Some(original)) is None,
        stale_notice(path, original, None) is None,
{
}

/// A draft goes into the drafts of the per-user store, holds the whole text of the session,
/// and is told with its place, with the steps that install it over the config, with what
/// changed under the session, and with keyd's verdict. Without a store there is no draft.
pub proof fn a_draft_holds_the_session(
    r: Result<Draft, String>,
    base: Seq<char>,
    path: Seq<char>,
    body: Seq<char>,
    told: DraftSaved,
    original: Seq<char>,
    now: Option<Seq<char>>,
    check: Option<Result<(), String>>,
)
    requires
        base.len() > 0,
        base.last() != '/',
    ensures
        drafted_below(r, Some(base), path, body) ==> {
            &&& r is Ok
            &&& r->Ok_0.dir@ == base + "/keyd-viz/drafts"@
            &&& r->Ok_0.path@ == drafts::draft_place(path, r->Ok_0.dir@)
            &&& r->Ok_0.body@ == body
        },
        drafted_below(r, None, path, body) ==> r is Err && r->Err_0@
            == "no XDG_CONFIG_HOME or HOME"@,
        r is Ok && told_of_draft(told, r->Ok_0.path@, path, original, now, check) ==> {
            &&& told.draft_path@ == r->Ok_0.path@
            &&& told.install_steps@ == drafts::steps_of(r->Ok_0.path@, path)
            &&& told.stale_warning is Some <==> now is Some && now->0 != original
            &&& told.check == check
        },
{
    reveal_strlit("keyd-viz");
    reveal_strlit("drafts");
    reveal_strlit("/keyd-viz/drafts");
    let dir = paths::join(base, "keyd-viz"@);
    paths::joining_keeps_absolute_paths(base, "keyd-viz"@);
    assert(dir.last() == 'z');
    paths::joining_keeps_absolute_paths(dir, "drafts"@);
    assert(paths::join(dir, "drafts"@) =~= base + "/keyd-viz/drafts"@);
}

proof fn filter_holds(refs: Seq<ReferenceView>, layer: Seq<char>, r: ReferenceView)
    ensures
        pointing_at(refs, layer).contains(r) <==> refs.contains(r) && r.layer == layer,
{
    let p = |x: ReferenceView| x.layer == layer;
    let f = refs.filter(p);
    if f.contains(r) {
        let i = choose|i: int| 0 <= i < f.len() && f[i] == r;
        refs.lemma_filter_pred(p, i);
        refs.lemma_filter_contains_rev(p, r);
    }
    if refs.contains(r) && r.layer == layer {
        let i = choose|i: int| 0 <= i < refs.len() && refs[i] == r;
        refs.lemma_filter_contains(p, i);
    }
}

/// Every binding that points at a layer is listed where it stands, by its key and its
/// section, and nothing else is.
pub proof fn every_reference_is_listed(refs: Seq<ReferenceView>, layer: Seq<char>, r: ReferenceView)
    ensures
        refs.contains(r) && r.layer == layer ==> sites(pointing_at(refs, layer)).contains(
            r.key + " in ["@ + r.section + "]"@,
        ),
        forall|t: Seq<char>| #[trigger]
            sites(pointing_at(refs, layer)).contains(t) ==> exists|x: ReferenceView|
                #[trigger] refs.contains(x) && x.layer == layer && t == x.key + " in ["@ + x.section
                    + "]"@,
{
    let f = pointing_at(refs, layer);
    filter_holds(refs, layer, r);
    if f.contains(r) {
        let i = choose|i: int| 0 <= i < f.len() && f[i] == r;
        assert(sites(f)[i] == site(r));
    }
    assert forall|t: Seq<char>| #[trigger] sites(f).contains(t) implies exists|x: ReferenceView|
        #[trigger] refs.contains(x) && x.layer == layer && t == x.key + " in ["@ + x.section
            + "]"@ by {
        let i = choose|i: int| 0 <= i < sites(f).len() && sites(f)[i] == t;
        assert(f.contains(f[i]));
        filter_holds(refs, layer, f[i]);
    }
}

/// Up to three places are named, one after the other; of more the first three, with how many
/// there are beyond.
pub proof fn three_places_are_named(a: Seq<char>, b: Seq<char>, c: Seq<char>, more: Seq<Seq<char>>)
    ensures
        few(seq![a]) == a,
        few(seq![a, b]) == a + ", "@ + b,
        few(seq![a, b, c]) == a + ", "@ + b + ", "@ + c,
        more.len() > 0 ==> few(seq![a, b, c] + more) == a + ", "@ + b + ", "@ + c + " (+"@
            + text::decimal(more.len()) + " more)"@,
{
    reveal_with_fuel(text::join, 4);
    assert(seq![a, b].drop_last() =~= seq![a]);
    assert(seq![a, b, c].drop_last() =~= seq![a, b]);
    let all = seq![a, b, c] + more;
    assert(all.subrange(0, 3) =~= seq![a, b, c]);
}

proof fn a_place_is_added(groups: Seq<OrphanView>, layer: Seq<char>, place: Seq<char>, at: int)
    requires
        is_first(groups, layer, at),
        layers_differ(groups),
    ensures
        layers_differ(add_place(groups, layer, place)),
        add_place(groups, layer, place).len() >= groups.len(),
        at < add_place(groups, layer, place).len(),
        add_place(groups, layer, place)[at].layer == layer,
        add_place(groups, layer, place)[at].places.last() == place,
        add_place(groups, layer, place)[at].places.len() > 0,
        forall|i: int|
            0 <= i < groups.len() ==> (#[trigger] add_place(groups, layer, place)[i]).layer
                == groups[i].layer,
{
    place_added_at(groups, layer, place, at);
}

/// Each layer is warned of once.
pub open spec fn layers_differ(groups: Seq<OrphanView>) -> bool {
    forall|i: int, j: int|
        0 <= i < j < groups.len() ==> (#[trigger] groups[i]).layer != (#[trigger] groups[j]).layer
}

proof fn first_of_layer(groups: Seq<OrphanView>, layer: Seq<char>) -> (at: int)
    ensures
        is_first(groups, layer, at),
    decreases groups.len(),
{
    if groups.len() == 0 {
        0
    } else {
        let t = groups.drop_last();
        let before = first_of_layer(t, layer);
        if before < t.len() {
            assert(groups[before] == t[before]);
            assert forall|i: int| 0 <= i < before implies (#[trigger] groups[i]).layer != layer by {
                assert(t[i] == groups[i]);
            }
            before
        } else {
            assert forall|i: int| 0 <= i < t.len() implies (#[trigger] groups[i]).layer != layer by {
                assert(t[i] == groups[i]);
            }
            if groups.last().layer == layer {
                t.len() as int
            } else {
                groups.len() as int
            }
        }
    }
}

/// Every layer that is missing is warned of, once, and no other is: there is exactly one line
/// for each layer that a binding points at in vain, which names it.
pub proof fn every_missing_layer_is_warned_of(refs: Seq<ReferenceView>, k: int)
    requires
        0 <= k < refs.len(),
    ensures
        layers_differ(orphan_groups(refs)),
        orphan_lines(refs).len() == orphan_groups(refs).len(),
        exists|g: int|
            0 <= g < orphan_groups(refs).len() && (#[trigger] orphan_groups(refs)[g]).layer
                == refs[k].layer && orphan_groups(refs)[g].places.contains(
                refs[k].key + " in ["@ + refs[k].section + "]"@,
            ) && orphan_lines(refs)[g] == "\u{26a0} no ["@ + refs[k].layer
                + "] layer \u{2014} referenced by "@ + few(orphan_groups(refs)[g].places),
        forall|g: int|
            0 <= g < orphan_groups(refs).len() ==> exists|j: int|
                0 <= j < refs.len() && (#[trigger] refs[j]).layer == (
                #[trigger] orphan_groups(refs)[g]).layer,
{
    orphans_are_grouped(refs, k);
    let groups = orphan_groups(refs);
    let g = choose|g: int|
        0 <= g < groups.len() && (#[trigger] groups[g]).layer == refs[k].layer
            && groups[g].places.contains(site(refs[k]));
    assert(groups[g].layer == refs[k].layer);
    assert(orphan_lines(refs)[g] == orphan_line(groups[g]));
}

proof fn orphans_are_grouped(refs: Seq<ReferenceView>, k: int)
    requires
        0 <= k < refs.len(),
    ensures
        layers_differ(orphan_groups(refs)),
        exists|g: int|
            0 <= g < orphan_groups(refs).len() && (#[trigger] orphan_groups(refs)[g]).layer
                == refs[k].layer && orphan_groups(refs)[g].places.contains(site(refs[k])),
        forall|g: int|
            0 <= g < orphan_groups(refs).len() ==> exists|j: int|
                0 <= j < refs.len() && (#[trigger] refs[j]).layer == (
                #[trigger] orphan_groups(refs)[g]).layer,
    decreases refs.len(),
{
    let t = refs.drop_last();
    let last = refs.last();
    let before = orphan_groups(t);
    let groups = orphan_groups(refs);
    if t.len() > 0 {
        orphans_are_grouped(
            t,
            if k < t.len() {
                k
            } else {
                0
            },
        );
    }
    let at = first_of_layer(before, last.layer);
    place_added_at(before, last.layer, site(last), at);
    a_place_is_added(before, last.layer, site(last), at);
    if k < t.len() {
        let g = choose|g: int|
            0 <= g < before.len() && (#[trigger] before[g]).layer == t[k].layer
                && before[g].places.contains(site(t[k]));
        assert(t[k] == refs[k]);
        if g == at {
            let i = choose|i: int|
                0 <= i < before[g].places.len() && before[g].places[i] == site(t[k]);
            assert(groups[g].places[i] == site(t[k]));
        } else {
            assert(groups[g] == before[g]);
        }
        assert(groups[g].layer == refs[k].layer && groups[g].places.contains(site(refs[k])));
    } else {
        assert(groups[at].places[groups[at].places.len() - 1] == site(last));
        assert(groups[at].layer == refs[k].layer && groups[at].places.contains(site(refs[k])));
    }
    assert forall|g: int| 0 <= g < groups.len() implies exists|j: int|
        0 <= j < refs.len() && (#[trigger] refs[j]).layer == (#[trigger] groups[g]).layer by {
        if g == at {
            assert(refs[refs.len() - 1].layer == groups[g].layer);
        } else {
            assert(groups[g] == before[g]);
            let j = choose|j: int|
                0 <= j < t.len() && (#[trigger] t[j]).layer == before[g].layer;
            assert(refs[j] == t[j]);
        }
    }
}

} // verus!
