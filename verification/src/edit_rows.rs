//! The rows and lines that edit mode shows of a session: layer choices, macro steps,
//! chords, global options, and the lines of the banner and the delete prompt.

use crate::editing;
use crate::editing::Setting;
use crate::editing::SettingView;
use crate::strings;
use crate::text;
use vstd::prelude::*;

verus! {

// ---------------------------------------------------------------------------
// Layers
// ---------------------------------------------------------------------------

/// A layer may be renamed: a real named layer, neither the implicit base nor a composite,
/// which is defined by its parts.
pub open spec fn may_rename(base: Seq<char>) -> bool {
    base.len() > 0 && base != "main"@ && !base.contains('+')
}

fn has_plus(s: &str) -> (r: bool)
    ensures
        r == s@.contains('+'),
{
    let v = strings::chars(s);
    let mut i: usize = 0;
    while i < v.len()
        invariant
            i <= v@.len(),
            v@ == s@,
            forall|k: int| 0 <= k < i ==> #[trigger] s@[k] != '+',
        decreases v.len() - i,
    {
        if v[i] == '+' {
            assert(s@[i as int] == '+');
            return true;
        }
        i = i + 1;
    }
    false
}

/// Whether a layer may be renamed.
pub fn renameable(base: &str) -> (r: bool)
    ensures
        r == may_rename(base@),
{
    !base.is_empty() && !strings::same(base, "main") && !has_plus(base)
}

/// A section can be held into: not the base, not a composite, and not named like a
/// modifier, which would always mean the modifier.
pub open spec fn can_hold(name: Seq<char>, modifiers: Seq<Seq<char>>) -> bool {
    name != "main"@ && !name.contains('+') && !modifiers.contains(name)
}

/// The sections that can be held into.
pub open spec fn holdable(names: Seq<Seq<char>>, modifiers: Seq<Seq<char>>) -> Seq<Seq<char>>
    decreases names.len(),
{
    if names.len() == 0 {
        Seq::empty()
    } else {
        let before = holdable(names.drop_last(), modifiers);
        if can_hold(names.last(), modifiers) {
            before.push(names.last())
        } else {
            before
        }
    }
}

proof fn listing_is_containing(v: Seq<String>, w: Seq<char>)
    ensures
        text::listed(v, w) <==> text::texts(v).contains(w),
{
    let t = text::texts(v);
    if text::listed(v, w) {
        let k = choose|k: int| 0 <= k < v.len() && #[trigger] v[k]@ == w;
        assert(t[k] == w);
    }
    if t.contains(w) {
        let k = choose|k: int| 0 <= k < t.len() && t[k] == w;
        assert(v[k]@ == w);
    }
}

/// The layers offered as targets of a tap/hold, from the editable sections.
pub fn hold_layer_choices(names: &Vec<String>, modifiers: &Vec<String>) -> (r: Vec<String>)
    ensures
        text::texts(r@) == holdable(text::texts(names@), text::texts(modifiers@)),
{
    let ghost all = text::texts(names@);
    let ghost mods = text::texts(modifiers@);
    let mut r: Vec<String> = Vec::new();
    let mut i: usize = 0;
    assert(text::texts(r@) =~= holdable(all.subrange(0, 0), mods));
    while i < names.len()
        invariant
            i <= names@.len(),
            all == text::texts(names@),
            mods == text::texts(modifiers@),
            text::texts(r@) == holdable(all.subrange(0, i as int), mods),
        decreases names.len() - i,
    {
        let ghost next = all.subrange(0, i + 1);
        let ghost before = text::texts(r@);
        assert(next.drop_last() =~= all.subrange(0, i as int));
        assert(next.last() == names@[i as int]@);
        let n = names[i].as_str();
        proof {
            listing_is_containing(modifiers@, n@);
        }
        if !strings::same(n, "main") && !has_plus(n) && !strings::listed(modifiers, n) {
            r.push(strings::copy(n));
            assert(text::texts(r@) =~= before.push(next.last()));
        }
        i = i + 1;
    }
    assert(all.subrange(0, i as int) =~= all);
    r
}

/// What is asked before a layer is deleted: it names the bindings that would be left
/// dangling.
pub open spec fn delete_question(name: Seq<char>, places: Seq<Seq<char>>) -> Seq<char> {
    if places.len() == 0 {
        "\u{26a0} Delete ["@ + name + "]? The layer and its bindings are removed."@
    } else {
        "\u{26a0} Delete ["@ + name + "]? "@ + text::decimal(places.len())
            + " binding(s) still point here ("@ + editing::few(places)
            + ") \u{2014} they'll dangle until you fix them."@
    }
}

/// What is asked before a layer is deleted, from where it is still referred to.
pub fn delete_detail(name: &str, places: &Vec<String>) -> (r: String)
    ensures
        r@ == delete_question(name@, text::texts(places@)),
{
    let mut r = strings::cat("\u{26a0} Delete [", name);
    if places.len() == 0 {
        r.append("]? The layer and its bindings are removed.");
    } else {
        r.append("]? ");
        assert(text::texts(places@).len() == places@.len());
        r.append(strings::decimal(places.len() as u64).as_str());
        r.append(" binding(s) still point here (");
        r.append(editing::few_text(places).as_str());
        r.append(") \u{2014} they'll dangle until you fix them.");
    }
    r
}

/// Which keyboards the edited file governs.
pub open spec fn banner_line(path: Seq<char>, device: Seq<char>, matched: Seq<Seq<char>>) -> Seq<
    char,
> {
    if device.len() > 0 {
        path + " \u{2014} applies to "@ + device
    } else if matched.len() > 0 {
        path + " \u{2014} applies to "@ + text::join(matched, ", "@)
    } else {
        path + " \u{2014} no matching keyboard connected; edits still save to this file"@
    }
}

/// Which keyboards the edited file governs, for the banner.
pub fn affected_line(path: &str, device: &str, matched: &Vec<String>) -> (r: String)
    ensures
        r@ == banner_line(path@, device@, text::texts(matched@)),
{
    if !device.is_empty() {
        strings::cat3(path, " \u{2014} applies to ", device)
    } else if matched.len() > 0 {
        let ids = strings::join(matched, ", ");
        strings::cat3(path, " \u{2014} applies to ", ids.as_str())
    } else {
        strings::cat(
            path,
            " \u{2014} no matching keyboard connected; edits still save to this file",
        )
    }
}

// ---------------------------------------------------------------------------
// Macros
// ---------------------------------------------------------------------------

/// One step of a macro.
#[derive(Debug, PartialEq, Eq)]
pub enum MacroToken {
    Key(String),
    /// Milliseconds.
    Delay(u16),
    Text(String),
    /// Modifier letters and keys pressed together.
    Chord { mods: Vec<char>, keys: Vec<String> },
}

pub enum MacroTokenView {
    Key(Seq<char>),
    Delay(nat),
    Text(Seq<char>),
    Chord { mods: Seq<char>, keys: Seq<Seq<char>> },
}

impl View for MacroToken {
    type V = MacroTokenView;

    open spec fn view(&self) -> MacroTokenView {
        match self {
            MacroToken::Key(k) => MacroTokenView::Key(k@),
            MacroToken::Delay(n) => MacroTokenView::Delay(*n as nat),
            MacroToken::Text(t) => MacroTokenView::Text(t@),
            MacroToken::Chord { mods, keys } => MacroTokenView::Chord {
                mods: mods@,
                keys: text::texts(keys@),
            },
        }
    }
}

/// A modifier's letter and its word.
#[derive(Debug)]
pub struct ModWord {
    pub letter: char,
    pub word: String,
}

pub struct ModWordView {
    pub letter: char,
    pub word: Seq<char>,
}

impl View for ModWord {
    type V = ModWordView;

    open spec fn view(&self) -> ModWordView {
        ModWordView { letter: self.letter, word: self.word@ }
    }
}

/// The word of a modifier letter.
pub open spec fn word_of(words: Seq<ModWordView>, c: char) -> Seq<char>
    decreases words.len(),
{
    if words.len() == 0 {
        "?"@
    } else if words[0].letter == c {
        words[0].word
    } else {
        word_of(words.skip(1), c)
    }
}

/// The word of a modifier letter; `?` for one that is not known.
pub fn mod_label(words: &Vec<ModWord>, c: char) -> (r: String)
    ensures
        r@ == word_of(text::views(words@), c),
{
    let ghost all = text::views(words@);
    let mut i: usize = 0;
    assert(all.skip(0) =~= all);
    while i < words.len()
        invariant
            i <= words@.len(),
            all == text::views(words@),
            word_of(all.skip(i as int), c) == word_of(all, c),
        decreases words.len() - i,
    {
        assert(all.skip(i as int)[0] == words@[i as int]@);
        if words[i].letter == c {
            return strings::copy(words[i].word.as_str());
        }
        assert(all.skip(i as int).skip(1) =~= all.skip(i + 1));
        i = i + 1;
    }
    strings::copy("?")
}

/// The row of a macro step.
#[derive(Debug, PartialEq, Eq)]
pub struct MacroRow {
    pub kind: String,
    pub display: String,
}

pub struct MacroRowView {
    pub kind: Seq<char>,
    pub display: Seq<char>,
}

impl View for MacroRow {
    type V = MacroRowView;

    open spec fn view(&self) -> MacroRowView {
        MacroRowView { kind: self.kind@, display: self.display@ }
    }
}

/// The words of the modifiers.
pub open spec fn words_of(words: Seq<ModWordView>, mods: Seq<char>) -> Seq<Seq<char>> {
    Seq::new(mods.len(), |i: int| word_of(words, mods[i]))
}

/// The row of a macro step.
pub open spec fn row_of(words: Seq<ModWordView>, t: MacroTokenView) -> MacroRowView {
    match t {
        MacroTokenView::Key(k) => MacroRowView { kind: "key"@, display: "press "@ + k },
        MacroTokenView::Delay(n) => MacroRowView {
            kind: "delay"@,
            display: "pause "@ + text::decimal(n) + " ms"@,
        },
        MacroTokenView::Text(s) => MacroRowView {
            kind: "text"@,
            display: "type \u{201c}"@ + s + "\u{201d}"@,
        },
        MacroTokenView::Chord { mods, keys } => MacroRowView {
            kind: "chord"@,
            display: text::join(words_of(words, mods) + keys, "+"@),
        },
    }
}

/// The row of a macro step: its kind and a label.
pub fn macro_row(words: &Vec<ModWord>, t: &MacroToken) -> (r: MacroRow)
    ensures
        r@ == row_of(text::views(words@), t@),
{
    match t {
        MacroToken::Key(k) => MacroRow {
            kind: strings::copy("key"),
            display: strings::cat("press ", k.as_str()),
        },
        MacroToken::Delay(n) => MacroRow {
            kind: strings::copy("delay"),
            display: strings::cat3("pause ", strings::decimal(*n as u64).as_str(), " ms"),
        },
        MacroToken::Text(s) => MacroRow {
            kind: strings::copy("text"),
            display: strings::cat3("type \u{201c}", s.as_str(), "\u{201d}"),
        },
        MacroToken::Chord { mods, keys } => {
            let ghost all = words_of(text::views(words@), mods@);
            let mut parts: Vec<String> = Vec::new();
            let mut i: usize = 0;
            while i < mods.len()
                invariant
                    i <= mods@.len(),
                    all == words_of(text::views(words@), mods@),
                    text::texts(parts@) == all.subrange(0, i as int),
                decreases mods.len() - i,
            {
                let ghost before = text::texts(parts@);
                let w = mod_label(words, mods[i]);
                assert(w@ == all[i as int]);
                parts.push(w);
                assert(text::texts(parts@) =~= before.push(all[i as int]));
                assert(all.subrange(0, i + 1) =~= before.push(all[i as int]));
                i = i + 1;
            }
            assert(all.subrange(0, i as int) =~= all);
            let mut more = strings::copy_all(keys);
            let ghost m = text::texts(more@);
            parts.append(&mut more);
            assert(text::texts(parts@) =~= all + m);
            MacroRow { kind: strings::copy("chord"), display: strings::join(&parts, "+") }
        },
    }
}

/// The rows of the macro steps.
pub open spec fn rows_of(words: Seq<ModWordView>, steps: Seq<MacroTokenView>) -> Seq<MacroRowView> {
    Seq::new(steps.len(), |i: int| row_of(words, steps[i]))
}

/// The rows of the macro steps.
pub fn macro_rows(words: &Vec<ModWord>, steps: &Vec<MacroToken>) -> (r: Vec<MacroRow>)
    ensures
        text::views(r@) == rows_of(text::views(words@), text::views(steps@)),
{
    let ghost all = rows_of(text::views(words@), text::views(steps@));
    let mut r: Vec<MacroRow> = Vec::new();
    let mut i: usize = 0;
    while i < steps.len()
        invariant
            i <= steps@.len(),
            all == rows_of(text::views(words@), text::views(steps@)),
            text::views(r@) == all.subrange(0, i as int),
        decreases steps.len() - i,
    {
        let ghost before = text::views(r@);
        let row = macro_row(words, &steps[i]);
        assert(row@ == all[i as int]);
        r.push(row);
        assert(text::views(r@) =~= before.push(all[i as int]));
        assert(all.subrange(0, i + 1) =~= before.push(all[i as int]));
        i = i + 1;
    }
    assert(all.subrange(0, i as int) =~= all);
    r
}

// ---------------------------------------------------------------------------
// Chords
// ---------------------------------------------------------------------------

/// The members of a chord as it is spelled.
pub open spec fn members_of(chord: Seq<char>) -> Seq<Seq<char>> {
    let parts = text::split(chord, '+');
    Seq::new(parts.len(), |i: int| text::trim(parts[i]))
}

/// The members of a chord as it is spelled.
pub fn chord_members(chord: &str) -> (r: Vec<String>)
    ensures
        text::texts(r@) == members_of(chord@),
{
    let parts = strings::split(chord, '+');
    let ghost all = members_of(chord@);
    assert(text::texts(parts@).len() == parts@.len());
    let mut r: Vec<String> = Vec::new();
    let mut i: usize = 0;
    while i < parts.len()
        invariant
            i <= parts@.len(),
            parts@.len() == all.len(),
            text::texts(parts@) == text::split(chord@, '+'),
            all == members_of(chord@),
            text::texts(r@) == all.subrange(0, i as int),
        decreases parts.len() - i,
    {
        let ghost before = text::texts(r@);
        assert(text::texts(parts@)[i as int] == parts@[i as int]@);
        let p = strings::trim(parts[i].as_str());
        assert(p@ == all[i as int]);
        r.push(p);
        assert(text::texts(r@) =~= before.push(all[i as int]));
        assert(all.subrange(0, i + 1) =~= before.push(all[i as int]));
        i = i + 1;
    }
    assert(all.subrange(0, i as int) =~= all);
    r
}

/// The row of a chord: as it is spelled, as it is shown, and its action.
#[derive(Debug, PartialEq, Eq)]
pub struct ChordRow {
    pub chord: String,
    pub display: String,
    pub action: String,
}

pub struct ChordRowView {
    pub chord: Seq<char>,
    pub display: Seq<char>,
    pub action: Seq<char>,
}

impl View for ChordRow {
    type V = ChordRowView;

    open spec fn view(&self) -> ChordRowView {
        ChordRowView { chord: self.chord@, display: self.display@, action: self.action@ }
    }
}

/// The row of a chord.
pub open spec fn chord_row(s: SettingView) -> ChordRowView {
    ChordRowView {
        chord: s.key,
        display: text::join(members_of(s.key), " + "@),
        action: s.val,
    }
}

/// The rows of the chords.
pub open spec fn chord_rows_of(chords: Seq<SettingView>) -> Seq<ChordRowView> {
    Seq::new(chords.len(), |i: int| chord_row(chords[i]))
}

/// The rows of a layer's chords.
pub fn chord_rows(chords: &Vec<Setting>) -> (r: Vec<ChordRow>)
    ensures
        text::views(r@) == chord_rows_of(text::views(chords@)),
{
    let ghost all = chord_rows_of(text::views(chords@));
    let mut r: Vec<ChordRow> = Vec::new();
    let mut i: usize = 0;
    while i < chords.len()
        invariant
            i <= chords@.len(),
            all == chord_rows_of(text::views(chords@)),
            text::views(r@) == all.subrange(0, i as int),
        decreases chords.len() - i,
    {
        let ghost before = text::views(r@);
        let members = chord_members(chords[i].key.as_str());
        let row = ChordRow {
            chord: strings::copy(chords[i].key.as_str()),
            display: strings::join(&members, " + "),
            action: strings::copy(chords[i].val.as_str()),
        };
        assert(row@ == all[i as int]);
        r.push(row);
        assert(text::views(r@) =~= before.push(all[i as int]));
        assert(all.subrange(0, i + 1) =~= before.push(all[i as int]));
        i = i + 1;
    }
    assert(all.subrange(0, i as int) =~= all);
    r
}

// ---------------------------------------------------------------------------
// Global options
// ---------------------------------------------------------------------------

/// A documented global option.
#[derive(Debug)]
pub struct GlobalOption {
    pub name: String,
    pub label: String,
    pub unit: String,
    pub hint: String,
    pub boolean: bool,
}

pub struct GlobalOptionView {
    pub name: Seq<char>,
    pub label: Seq<char>,
    pub unit: Seq<char>,
    pub hint: Seq<char>,
    pub boolean: bool,
}

impl View for GlobalOption {
    type V = GlobalOptionView;

    open spec fn view(&self) -> GlobalOptionView {
        GlobalOptionView {
            name: self.name@,
            label: self.label@,
            unit: self.unit@,
            hint: self.hint@,
            boolean: self.boolean,
        }
    }
}

/// A row of the options form.
#[derive(Debug, PartialEq, Eq)]
pub struct GlobalRow {
    pub name: String,
    pub label: String,
    pub value: String,
    pub unit: String,
    pub hint: String,
    pub is_bool: bool,
    pub known: bool,
}

pub struct GlobalRowView {
    pub name: Seq<char>,
    pub label: Seq<char>,
    pub value: Seq<char>,
    pub unit: Seq<char>,
    pub hint: Seq<char>,
    pub is_bool: bool,
    pub known: bool,
}

impl View for GlobalRow {
    type V = GlobalRowView;

    open spec fn view(&self) -> GlobalRowView {
        GlobalRowView {
            name: self.name@,
            label: self.label@,
            value: self.value@,
            unit: self.unit@,
            hint: self.hint@,
            is_bool: self.is_bool,
            known: self.known,
        }
    }
}

/// The value of an option; empty where it is not set.
pub open spec fn set_value(entries: Seq<SettingView>, name: Seq<char>) -> Seq<char>
    decreases entries.len(),
{
    if entries.len() == 0 {
        Seq::empty()
    } else if entries[0].key == name {
        entries[0].val
    } else {
        set_value(entries.skip(1), name)
    }
}

/// The option is documented.
pub open spec fn is_known(options: Seq<GlobalOptionView>, name: Seq<char>) -> bool {
    exists|i: int| 0 <= i < options.len() && (#[trigger] options[i]).name == name
}

/// The row of a documented option.
pub open spec fn known_row(o: GlobalOptionView, entries: Seq<SettingView>) -> GlobalRowView {
    GlobalRowView {
        name: o.name,
        label: o.label,
        value: set_value(entries, o.name),
        unit: o.unit,
        hint: o.hint,
        is_bool: o.boolean,
        known: true,
    }
}

/// The row of a line that no documented option explains.
pub open spec fn other_row(s: SettingView) -> GlobalRowView {
    GlobalRowView {
        name: s.key,
        label: s.key,
        value: s.val,
        unit: Seq::empty(),
        hint: Seq::empty(),
        is_bool: false,
        known: false,
    }
}

/// The rows of the documented options.
pub open spec fn known_rows(options: Seq<GlobalOptionView>, entries: Seq<SettingView>) -> Seq<
    GlobalRowView,
> {
    Seq::new(options.len(), |i: int| known_row(options[i], entries))
}

/// The rows of the lines that no documented option explains.
pub open spec fn other_rows(options: Seq<GlobalOptionView>, entries: Seq<SettingView>) -> Seq<
    GlobalRowView,
>
    decreases entries.len(),
{
    if entries.len() == 0 {
        Seq::empty()
    } else {
        let before = other_rows(options, entries.drop_last());
        if is_known(options, entries.last().key) {
            before
        } else {
            before.push(other_row(entries.last()))
        }
    }
}

/// The rows of the options form: every documented option, then every other line, so that
/// nothing in the file is hidden.
pub open spec fn global_rows_of(options: Seq<GlobalOptionView>, entries: Seq<SettingView>) -> Seq<
    GlobalRowView,
> {
    known_rows(options, entries) + other_rows(options, entries)
}

fn value_set(entries: &Vec<Setting>, name: &str) -> (r: String)
    ensures
        r@ == set_value(text::views(entries@), name@),
{
    let ghost all = text::views(entries@);
    let mut i: usize = 0;
    assert(all.skip(0) =~= all);
    while i < entries.len()
        invariant
            i <= entries@.len(),
            all == text::views(entries@),
            set_value(all.skip(i as int), name@) == set_value(all, name@),
        decreases entries.len() - i,
    {
        assert(all.skip(i as int)[0] == entries@[i as int]@);
        if strings::same(entries[i].key.as_str(), name) {
            return strings::copy(entries[i].val.as_str());
        }
        assert(all.skip(i as int).skip(1) =~= all.skip(i + 1));
        i = i + 1;
    }
    String::new()
}

fn known_option(options: &Vec<GlobalOption>, name: &str) -> (r: bool)
    ensures
        r == is_known(text::views(options@), name@),
{
    let ghost all = text::views(options@);
    let mut i: usize = 0;
    while i < options.len()
        invariant
            i <= options@.len(),
            all == text::views(options@),
            forall|k: int| 0 <= k < i ==> (#[trigger] all[k]).name != name@,
        decreases options.len() - i,
    {
        assert(all[i as int] == options@[i as int]@);
        if strings::same(options[i].name.as_str(), name) {
            return true;
        }
        i = i + 1;
    }
    false
}

/// The rows of the options form, from the documented options and those that are set.
pub fn global_rows_for(options: &Vec<GlobalOption>, entries: &Vec<Setting>) -> (r: Vec<GlobalRow>)
    ensures
        text::views(r@) == global_rows_of(text::views(options@), text::views(entries@)),
{
    let ghost opts = text::views(options@);
    let ghost all = text::views(entries@);
    let ghost known = known_rows(opts, all);
    let mut r: Vec<GlobalRow> = Vec::new();
    let mut i: usize = 0;
    while i < options.len()
        invariant
            i <= options@.len(),
            opts == text::views(options@),
            all == text::views(entries@),
            known == known_rows(opts, all),
            text::views(r@) == known.subrange(0, i as int),
        decreases options.len() - i,
    {
        let ghost before = text::views(r@);
        let o = &options[i];
        let row = GlobalRow {
            name: strings::copy(o.name.as_str()),
            label: strings::copy(o.label.as_str()),
            value: value_set(entries, o.name.as_str()),
            unit: strings::copy(o.unit.as_str()),
            hint: strings::copy(o.hint.as_str()),
            is_bool: o.boolean,
            known: true,
        };
        assert(row@ == known[i as int]);
        r.push(row);
        assert(text::views(r@) =~= before.push(known[i as int]));
        assert(known.subrange(0, i + 1) =~= before.push(known[i as int]));
        i = i + 1;
    }
    assert(known.subrange(0, i as int) =~= known);
    let mut k: usize = 0;
    assert(known + other_rows(opts, all.subrange(0, 0)) =~= known);
    while k < entries.len()
        invariant
            k <= entries@.len(),
            opts == text::views(options@),
            all == text::views(entries@),
            text::views(r@) == known + other_rows(opts, all.subrange(0, k as int)),
        decreases entries.len() - k,
    {
        let ghost next = all.subrange(0, k + 1);
        let ghost before = text::views(r@);
        assert(next.drop_last() =~= all.subrange(0, k as int));
        assert(next.last() == entries@[k as int]@);
        let e = &entries[k];
        if !known_option(options, e.key.as_str()) {
            let unit = String::new();
            let hint = String::new();
            assert(unit@ =~= Seq::<char>::empty());
            assert(hint@ =~= Seq::<char>::empty());
            let row = GlobalRow {
                name: strings::copy(e.key.as_str()),
                label: strings::copy(e.key.as_str()),
                value: strings::copy(e.val.as_str()),
                unit,
                hint,
                is_bool: false,
                known: false,
            };
            let ghost v = row@;
            assert(v == other_row(next.last()));
            r.push(row);
            assert(text::views(r@) =~= before.push(v));
            assert((known + other_rows(opts, all.subrange(0, k as int))).push(v) =~= known
                + other_rows(opts, all.subrange(0, k as int)).push(v));
        }
        k = k + 1;
    }
    assert(all.subrange(0, k as int) =~= all);
    r
}

proof fn other_rows_hold(options: Seq<GlobalOptionView>, entries: Seq<SettingView>, k: int)
    requires
        0 <= k < entries.len(),
        !is_known(options, entries[k].key),
    ensures
        other_rows(options, entries).contains(other_row(entries[k])),
    decreases entries.len(),
{
    let all = other_rows(options, entries);
    let one = other_row(entries[k]);
    if k == entries.len() - 1 {
        assert(all[all.len() - 1] == one);
    } else {
        other_rows_hold(options, entries.drop_last(), k);
        let before = other_rows(options, entries.drop_last());
        let at = choose|at: int| 0 <= at < before.len() && before[at] == one;
        assert(all[at] == one);
    }
}

proof fn value_of_key(entries: Seq<SettingView>, k: int)
    requires
        0 <= k < entries.len(),
        forall|i: int, j: int|
            0 <= i < j < entries.len() ==> (#[trigger] entries[i]).key != (#[trigger] entries[j]).key,
    ensures
        set_value(entries, entries[k].key) == entries[k].val,
    decreases entries.len(),
{
    if k > 0 {
        let rest = entries.skip(1);
        assert forall|i: int, j: int| 0 <= i < j < rest.len() implies (#[trigger] rest[i]).key != (
        #[trigger] rest[j]).key by {
            assert(entries[i + 1].key != entries[j + 1].key);
        }
        value_of_key(rest, k - 1);
        assert(entries[0].key != entries[k].key);
        assert(rest[k - 1] == entries[k]);
    }
}

/// Nothing in the file is hidden: every option that is set has a row with its value.
pub proof fn every_option_has_a_row(
    options: Seq<GlobalOptionView>,
    entries: Seq<SettingView>,
    k: int,
)
    requires
        0 <= k < entries.len(),
        forall|i: int, j: int|
            0 <= i < j < entries.len() ==> (#[trigger] entries[i]).key != (#[trigger] entries[j]).key,
    ensures
        exists|i: int|
            0 <= i < global_rows_of(options, entries).len() && (#[trigger] global_rows_of(
                options,
                entries,
            )[i]).name == entries[k].key && global_rows_of(options, entries)[i].value
                == entries[k].val,
{
    let rows = global_rows_of(options, entries);
    let key = entries[k].key;
    if is_known(options, key) {
        let i = choose|i: int| 0 <= i < options.len() && (#[trigger] options[i]).name == key;
        value_of_key(entries, k);
        assert(rows[i] == known_row(options[i], entries));
    } else {
        other_rows_hold(options, entries, k);
        let more = other_rows(options, entries);
        let at = choose|at: int| 0 <= at < more.len() && more[at] == other_row(entries[k]);
        assert(rows[options.len() + at] == other_row(entries[k]));
    }
}

proof fn holdable_is_exact(names: Seq<Seq<char>>, modifiers: Seq<Seq<char>>, x: Seq<char>)
    ensures
        holdable(names, modifiers).contains(x) <==> names.contains(x) && can_hold(x, modifiers),
    decreases names.len(),
{
    if names.len() > 0 {
        let t = names.drop_last();
        holdable_is_exact(t, modifiers, x);
        let before = holdable(t, modifiers);
        let all = holdable(names, modifiers);
        assert(names =~= t.push(names.last()));
        if t.contains(x) {
            let i = choose|i: int| 0 <= i < t.len() && t[i] == x;
            assert(names[i] == x);
        }
        if names.contains(x) {
            let i = choose|i: int| 0 <= i < names.len() && names[i] == x;
            if i < t.len() {
                assert(t[i] == x);
            }
        }
        if before.contains(x) {
            let i = choose|i: int| 0 <= i < before.len() && before[i] == x;
            assert(all[i] == x);
        }
        if can_hold(names.last(), modifiers) {
            assert(all[all.len() - 1] == names.last());
            if all.contains(x) {
                let i = choose|i: int| 0 <= i < all.len() && all[i] == x;
                if i < before.len() {
                    assert(before[i] == x);
                } else {
                    assert(names[names.len() - 1] == x);
                }
            }
        }
        if x == names.last() {
            assert(names[names.len() - 1] == x);
        }
    }
}

/// The layers offered for a hold are the sections but for the base, the composites, and
/// those that are named like a modifier.
pub proof fn holds_go_to_real_layers(
    names: Seq<Seq<char>>,
    modifiers: Seq<Seq<char>>,
    x: Seq<char>,
)
    ensures
        holdable(names, modifiers).contains(x) <==> names.contains(x) && x != "main"@
            && !x.contains('+') && !modifiers.contains(x),
{
    holdable_is_exact(names, modifiers, x);
}

proof fn word_of_first(words: Seq<ModWordView>, c: char, i: int)
    requires
        0 <= i < words.len(),
        words[i].letter == c,
        forall|j: int| 0 <= j < i ==> (#[trigger] words[j]).letter != c,
    ensures
        word_of(words, c) == words[i].word,
    decreases words.len(),
{
    if i > 0 {
        assert(words[0].letter != c);
        assert forall|j: int| 0 <= j < i - 1 implies (#[trigger] words.skip(1)[j]).letter != c by {
            assert(words.skip(1)[j] == words[j + 1]);
        }
        assert(words.skip(1)[i - 1] == words[i]);
        word_of_first(words.skip(1), c, i - 1);
    }
}

/// A modifier is shown by its word, and each step of a macro by one row of its kind that
/// shows what it does: the key, the time, the text, or the modifiers and keys of the chord.
pub proof fn each_step_has_its_row(
    words: Seq<ModWordView>,
    steps: Seq<MacroTokenView>,
    i: int,
    w: int,
)
    requires
        0 <= i < steps.len(),
        0 <= w < words.len(),
        forall|j: int| 0 <= j < w ==> (#[trigger] words[j]).letter != words[w].letter,
    ensures
        word_of(words, words[w].letter) == words[w].word,
        rows_of(words, steps).len() == steps.len(),
        ({
            let row = rows_of(words, steps)[i];
            &&& steps[i] matches MacroTokenView::Key(k) ==> row.kind == "key"@ && row.display
                == "press "@ + k
            &&& steps[i] matches MacroTokenView::Delay(n) ==> row.kind == "delay"@ && row.display
                == "pause "@ + text::decimal(n) + " ms"@
            &&& steps[i] matches MacroTokenView::Text(s) ==> row.kind == "text"@ && row.display
                == "type \u{201c}"@ + s + "\u{201d}"@
            &&& steps[i] matches MacroTokenView::Chord { mods, keys } ==> row.kind == "chord"@
                && row.display == text::join(
                mods.map_values(|c: char| word_of(words, c)) + keys,
                "+"@,
            )
        }),
{
    word_of_first(words, words[w].letter, w);
    if let MacroTokenView::Chord { mods, keys } = steps[i] {
        assert(words_of(words, mods) =~= mods.map_values(|c: char| word_of(words, c)));
    }
}

/// A chord has one row: as it is spelled, with its members apart, and with its action.
pub proof fn each_chord_has_its_row(chords: Seq<SettingView>, i: int)
    requires
        0 <= i < chords.len(),
    ensures
        chord_rows_of(chords).len() == chords.len(),
        chord_rows_of(chords)[i].chord == chords[i].key,
        chord_rows_of(chords)[i].action == chords[i].val,
        chord_rows_of(chords)[i].display == text::join(members_of(chords[i].key), " + "@),
{
}

proof fn parts_are_tight(members: Seq<Seq<char>>)
    requires
        members.len() > 0,
        forall|i: int| 0 <= i < members.len() ==> !(#[trigger] members[i]).contains('+'),
    ensures
        text::split(text::join(members, "+"@), '+') == members,
    decreases members.len(),
{
    reveal_strlit("+");
    if members.len() == 1 {
        text::split_without_separator(members[0], '+');
        assert(members =~= seq![members[0]]);
    } else {
        let t = members.drop_last();
        assert forall|i: int| 0 <= i < t.len() implies !(#[trigger] t[i]).contains('+') by {
            assert(t[i] == members[i]);
        }
        parts_are_tight(t);
        let front = text::join(t, "+"@);
        let last = members.last();
        assert(!members[members.len() - 1].contains('+'));
        text::split_without_separator(last, '+');
        text::split_at_separator(front, '+', last);
        assert(text::join(members, "+"@) =~= front.push('+') + last);
        assert(t + seq![last] =~= members);
    }
}

/// The members of a chord are read from its spelling: keys written with plus signs between
/// them, and no white space around them, are its members in that order.
pub proof fn members_are_read_back(members: Seq<Seq<char>>)
    requires
        members.len() > 0,
        forall|i: int|
            0 <= i < members.len() ==> !(#[trigger] members[i]).contains('+') && text::trim(
                members[i],
            ) == members[i],
    ensures
        members_of(text::join(members, "+"@)) == members,
{
    parts_are_tight(members);
    assert(members_of(text::join(members, "+"@)) =~= members);
}

/// The options form has the documented options first, in their order and with their own
/// texts, each with the value that is set, or blank; a line that no documented option
/// explains follows as it is written.
pub proof fn documented_options_come_first(
    options: Seq<GlobalOptionView>,
    entries: Seq<SettingView>,
    i: int,
)
    requires
        0 <= i < options.len(),
    ensures
        ({
            let row = global_rows_of(options, entries)[i];
            &&& row.known
            &&& row.name == options[i].name && row.label == options[i].label && row.unit
                == options[i].unit && row.hint == options[i].hint && row.is_bool
                == options[i].boolean
            &&& (forall|k: int|
                0 <= k < entries.len() ==> (#[trigger] entries[k]).key != options[i].name)
                ==> row.value.len() == 0
        }),
{
    if forall|k: int| 0 <= k < entries.len() ==> (#[trigger] entries[k]).key != options[i].name {
        unset_is_blank(entries, options[i].name);
    }
}

proof fn unset_is_blank(entries: Seq<SettingView>, name: Seq<char>)
    requires
        forall|k: int| 0 <= k < entries.len() ==> (#[trigger] entries[k]).key != name,
    ensures
        set_value(entries, name).len() == 0,
    decreases entries.len(),
{
    if entries.len() > 0 {
        assert(entries[0].key != name);
        assert forall|k: int| 0 <= k < entries.skip(1).len() implies (
        #[trigger] entries.skip(1)[k]).key != name by {
            assert(entries.skip(1)[k] == entries[k + 1]);
        }
        unset_is_blank(entries.skip(1), name);
    }
}

proof fn places_are_told(places: Seq<Seq<char>>)
    ensures
        places.len() <= 3 ==> editing::few(places) == text::join(places, ", "@),
{
    if places.len() <= 3 {
        assert(places.subrange(0, places.len() as int) =~= places);
        assert(editing::few(places) =~= text::join(places, ", "@));
    }
}

/// The question before a delete names the layer, and how many bindings still point at it
/// with where they stand; where none does it says that the layer goes. The banner names the
/// keyboards that the file governs: the one it was opened for, else all that match, else
/// that none does.
pub proof fn the_lines_say_what_is_affected(
    name: Seq<char>,
    places: Seq<Seq<char>>,
    path: Seq<char>,
    device: Seq<char>,
    matched: Seq<Seq<char>>,
)
    ensures
        text::starts_with(delete_question(name, places), "\u{26a0} Delete ["@ + name + "]? "@),
        0 < places.len() <= 3 ==> delete_question(name, places) == "\u{26a0} Delete ["@ + name
            + "]? "@ + text::decimal(places.len()) + " binding(s) still point here ("@ + text::join(
            places,
            ", "@,
        ) + ") \u{2014} they'll dangle until you fix them."@,
        device.len() > 0 ==> banner_line(path, device, matched) == path
            + " \u{2014} applies to "@ + device,
        device.len() == 0 && matched.len() > 0 ==> banner_line(path, device, matched) == path
            + " \u{2014} applies to "@ + text::join(matched, ", "@),
        text::starts_with(banner_line(path, device, matched), path),
{
    places_are_told(places);
    reveal_strlit("]? ");
    reveal_strlit("]? The layer and its bindings are removed.");
    let head = "\u{26a0} Delete ["@ + name + "]? "@;
    let q = delete_question(name, places);
    assert(q.subrange(0, head.len() as int) =~= head);
    let b = banner_line(path, device, matched);
    assert(b.subrange(0, path.len() as int) =~= path);
}

/// A layer can be renamed exactly where it is one of its own: not the base, no composite of
/// layers, and not nothing.
pub proof fn only_named_layers_are_renamed(base: Seq<char>, a: Seq<char>, b: Seq<char>)
    ensures
        !may_rename("main"@),
        !may_rename(Seq::empty()),
        !may_rename(a.push('+') + b),
        base.len() > 0 && base != "main"@ && (forall|i: int|
            0 <= i < base.len() ==> #[trigger] base[i] != '+') ==> may_rename(base),
{
    let both = a.push('+') + b;
    assert(both[a.len() as int] == '+');
}

} // verus!
