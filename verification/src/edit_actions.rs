//! Edit mode's callbacks: what a click asks of the session, and how the forms follow.

use crate::apply_ctx;
use crate::edit_rows;
use crate::edit_rows::ChordRowView;
use crate::edit_rows::MacroToken;
use crate::edit_rows::MacroTokenView;
use crate::edit_rows::ModWord;
use crate::edit_rows::ModWordView;
use crate::edit_ui;
use crate::edit_ui::Behavior;
use crate::edit_ui::ChordForm;
use crate::edit_ui::ChordFormView;
use crate::edit_ui::EditUi;
use crate::edit_ui::EditUiView;
use crate::edit_ui::KeyFacts;
use crate::edit_ui::KeyFactsView;
use crate::edit_ui::KeyFormView;
use crate::edit_ui::LayerFormView;
use crate::edit_ui::MacroForm;
use crate::edit_ui::MacroFormView;
use crate::edit_ui::PanelView;
use crate::edit_ui::PickerFormView;
use crate::edit_ui::TapHoldFormView;
use crate::edit_ui::Vocabulary;
use crate::editing;
use crate::editing::EditSession;
use crate::editing::Setting;
use crate::editing::SettingView;
use crate::editing::ViewOnly;
use crate::picker;
use crate::strings;
use crate::text;
use vstd::prelude::*;

verus! {

// ---------------------------------------------------------------------------
// Chord members
// ---------------------------------------------------------------------------

/// The members without the key.
pub open spec fn dropped(keys: Seq<Seq<char>>, phys: Seq<char>) -> Seq<Seq<char>>
    decreases keys.len(),
{
    if keys.len() == 0 {
        Seq::empty()
    } else {
        let before = dropped(keys.drop_last(), phys);
        if keys.last() == phys {
            before
        } else {
            before.push(keys.last())
        }
    }
}

/// The members with the key picked, or dropped where it was picked.
pub open spec fn toggled(keys: Seq<Seq<char>>, phys: Seq<char>) -> Seq<Seq<char>> {
    if phys.len() == 0 {
        keys
    } else if keys.contains(phys) {
        dropped(keys, phys)
    } else {
        keys.push(phys)
    }
}

/// Add a key to the members, or remove it if it is one. No key changes nothing.
pub fn toggle_chord_member(keys: &Vec<String>, phys: &str) -> (r: Vec<String>)
    ensures
        text::texts(r@) == toggled(text::texts(keys@), phys@),
{
    let ghost all = text::texts(keys@);
    if phys.is_empty() {
        return strings::copy_all(keys);
    }
    let mut r: Vec<String> = Vec::new();
    let mut found = false;
    let mut i: usize = 0;
    assert(text::texts(r@) =~= dropped(all.subrange(0, 0), phys@));
    while i < keys.len()
        invariant
            i <= keys@.len(),
            all == text::texts(keys@),
            text::texts(r@) == dropped(all.subrange(0, i as int), phys@),
            found <==> exists|k: int| 0 <= k < i && #[trigger] all[k] == phys@,
        decreases keys.len() - i,
    {
        let ghost next = all.subrange(0, i + 1);
        let ghost before = text::texts(r@);
        assert(next.drop_last() =~= all.subrange(0, i as int));
        assert(next.last() == keys@[i as int]@);
        assert(all[i as int] == keys@[i as int]@);
        if strings::same(keys[i].as_str(), phys) {
            found = true;
        } else {
            r.push(strings::copy(keys[i].as_str()));
            assert(text::texts(r@) =~= before.push(next.last()));
        }
        i = i + 1;
    }
    assert(all.subrange(0, i as int) =~= all);
    if found {
        assert(all.contains(phys@));
        r
    } else {
        let mut more = strings::copy_all(keys);
        more.push(strings::copy(phys));
        assert(text::texts(more@) =~= all.push(phys@));
        more
    }
}

proof fn dropped_is_exact(keys: Seq<Seq<char>>, phys: Seq<char>)
    ensures
        forall|k: Seq<char>| #[trigger]
            dropped(keys, phys).contains(k) <==> (keys.contains(k) && k != phys),
        !keys.contains(phys) ==> dropped(keys, phys) == keys,
    decreases keys.len(),
{
    if keys.len() > 0 {
        let front = keys.drop_last();
        dropped_is_exact(front, phys);
        let before = dropped(front, phys);
        let all = dropped(keys, phys);
        assert forall|k: Seq<char>| #[trigger] all.contains(k) implies keys.contains(k) && k
            != phys by {
            let i = choose|i: int| 0 <= i < all.len() && all[i] == k;
            if i < before.len() {
                assert(before[i] == k);
                assert(before.contains(k));
                let j = choose|j: int| 0 <= j < front.len() && front[j] == k;
                assert(keys[j] == k);
            } else {
                assert(keys[keys.len() - 1] == k);
            }
        }
        assert forall|k: Seq<char>| keys.contains(k) && k != phys implies #[trigger] all.contains(
            k,
        ) by {
            let j = choose|j: int| 0 <= j < keys.len() && keys[j] == k;
            if j < front.len() {
                assert(front[j] == k);
                assert(before.contains(k));
                let i = choose|i: int| 0 <= i < before.len() && before[i] == k;
                assert(all[i] == k);
            } else {
                assert(all[all.len() - 1] == k);
            }
        }
        if !keys.contains(phys) {
            assert(!front.contains(phys)) by {
                if front.contains(phys) {
                    let j = choose|j: int| 0 <= j < front.len() && front[j] == phys;
                    assert(keys[j] == phys);
                }
            }
            assert(keys[keys.len() - 1] != phys);
            assert(all =~= keys);
        }
    } else {
        assert(dropped(keys, phys) =~= keys);
    }
}

/// A click on a key turns it, and no other key, into a member or out of one; a second
/// click on a new member takes it out again and leaves the rest as it was.
pub proof fn a_click_toggles_one_member(keys: Seq<Seq<char>>, phys: Seq<char>, other: Seq<char>)
    requires
        phys.len() > 0,
    ensures
        toggled(keys, phys).contains(phys) <==> !keys.contains(phys),
        other != phys ==> (toggled(keys, phys).contains(other) <==> keys.contains(other)),
        !keys.contains(phys) ==> toggled(toggled(keys, phys), phys) == keys,
{
    dropped_is_exact(keys, phys);
    if !keys.contains(phys) {
        let more = keys.push(phys);
        assert(more[keys.len() as int] == phys);
        assert(more.contains(phys));
        assert(more.drop_last() =~= keys);
        if keys.contains(other) {
            let j = choose|j: int| 0 <= j < keys.len() && keys[j] == other;
            assert(more[j] == other);
        }
        if more.contains(other) && other != phys {
            let j = choose|j: int| 0 <= j < more.len() && more[j] == other;
            assert(keys[j] == other);
        }
    }
}

// ---------------------------------------------------------------------------
// Selecting
// ---------------------------------------------------------------------------

/// The forms with no key selected.
pub open spec fn deselected(u: EditUiView) -> EditUiView {
    EditUiView {
        key: KeyFormView {
            phys: edit_ui::blank(),
            armed: false,
            label: edit_ui::blank(),
            has_label: false,
            ..u.key
        },
        ..u
    }
}

/// The forms with the facts of a key in them: its editor opened and its binding in the
/// value field.
pub open spec fn focused(
    u: EditUiView,
    f: KeyFactsView,
    phys: Seq<char>,
    words: Seq<ModWordView>,
) -> EditUiView {
    let s = edit_ui::seeded(u, f, phys, words);
    EditUiView {
        key: KeyFormView {
            mode: edit_ui::mode_for(f.mac is Some, f.tap_hold is Some),
            current: edit_ui::or_blank(f.binding),
            value: edit_ui::or_blank(f.binding),
            ..s.key
        },
        ..s
    }
}

/// The forms after a click on a key: in chord mode it toggles a member, a second click
/// deselects, and otherwise the key is selected if there is a session.
pub open spec fn clicked(
    u: EditUiView,
    phys: Seq<char>,
    facts: Option<KeyFactsView>,
    words: Seq<ModWordView>,
) -> EditUiView {
    if u.panel.board_mode == "chord"@ {
        EditUiView { chord: ChordFormView { keys: toggled(u.chord.keys, phys), ..u.chord }, ..u }
    } else if phys == u.key.phys {
        deselected(u)
    } else {
        match facts {
            None => u,
            Some(f) => {
                let s = focused(u, f, phys, words);
                EditUiView {
                    key: KeyFormView { phys, armed: false, ..s.key },
                    panel: PanelView { editing_global: false, ..s.panel },
                    ..s
                }
            },
        }
    }
}

/// The facts of a key, if there is a session.
pub open spec fn facts_of(f: Option<KeyFacts>) -> Option<KeyFactsView> {
    match f {
        Some(x) => Some(x@),
        None => None,
    }
}

/// The rows for the chords, if there is a session.
pub open spec fn rows_or(chords: Option<Vec<Setting>>, rows: Seq<ChordRowView>) -> Seq<
    ChordRowView,
> {
    match chords {
        Some(c) => edit_rows::chord_rows_of(text::views(c@)),
        None => rows,
    }
}

/// The builder emptied with its action, and the chords listed anew if asked.
pub open spec fn relisted(c: ChordFormView, chords: Option<Vec<Setting>>, list: bool) -> ChordFormView {
    ChordFormView {
        action: edit_ui::blank(),
        rows: if list {
            rows_or(chords, c.rows)
        } else {
            c.rows
        },
        ..edit_ui::builder_cleared(c)
    }
}

impl ChordForm {
    /// Empty the builder with its action, and list the chords anew if asked.
    fn relist(&mut self, chords: &Option<Vec<Setting>>, list: bool)
        ensures
            final(self)@ == relisted(old(self)@, *chords, list),
    {
        self.clear_chord_builder();
        self.action = String::new();
        assert(self.action@ =~= edit_ui::blank());
        if list {
            if let Some(c) = chords {
                self.rows = edit_rows::chord_rows(c);
            }
        }
    }
}

/// The forms with another section to edit: what named the one before is dismissed, and in
/// chord mode the builder is emptied and the section's chords are listed.
pub open spec fn layer_set(u: EditUiView, name: Seq<char>, chords: Option<Vec<Setting>>) -> EditUiView {
    EditUiView {
        layers: LayerFormView {
            delete_prompt: edit_ui::blank(),
            delete_detail: edit_ui::blank(),
            rename_target: edit_ui::blank(),
            rename_name: edit_ui::blank(),
            can_rename: edit_rows::may_rename(name),
            layer: name,
            ..u.layers
        },
        panel: PanelView { editing_global: false, ..u.panel },
        chord: if u.panel.board_mode == "chord"@ {
            relisted(u.chord, chords, true)
        } else {
            u.chord
        },
        ..u
    }
}

/// The forms after a section was picked: a selected key is shown as it is there.
pub open spec fn layer_picked(
    u: EditUiView,
    name: Seq<char>,
    chords: Option<Vec<Setting>>,
    facts: Option<KeyFactsView>,
    words: Seq<ModWordView>,
) -> EditUiView {
    let v = layer_set(u, name, chords);
    match facts {
        Some(f) => if u.key.phys.len() > 0 {
            focused(v, f, u.key.phys, words)
        } else {
            v
        },
        None => v,
    }
}

impl EditUi {
    /// Fill the forms with the facts of a key.
    fn focus(&mut self, f: &KeyFacts, phys: &str, words: &Vec<ModWord>)
        ensures
            final(self)@ == focused(old(self)@, f@, phys@, text::views(words@)),
    {
        self.seed(f, phys, words);
        self.key.mode = if f.mac.is_some() {
            strings::copy("macro")
        } else if f.tap_hold.is_some() {
            strings::copy("taphold")
        } else {
            strings::copy("simple")
        };
        let cur = match &f.binding {
            Some(b) => strings::copy(b.as_str()),
            None => String::new(),
        };
        assert(cur@ =~= edit_ui::or_blank(text::opt(f.binding)));
        self.key.current = strings::copy(cur.as_str());
        self.key.value = cur;
    }

    /// A cap was clicked.
    pub fn select_key(&mut self, phys: &str, facts: &Option<KeyFacts>, words: &Vec<ModWord>)
        ensures
            final(self)@ == clicked(old(self)@, phys@, facts_of(*facts), text::views(words@)),
    {
        if strings::same(self.panel.board_mode.as_str(), "chord") {
            self.chord.keys = toggle_chord_member(&self.chord.keys, phys);
            return;
        }
        if strings::same(phys, self.key.phys.as_str()) {
            self.key.phys = String::new();
            self.key.armed = false;
            self.key.label = String::new();
            self.key.has_label = false;
            assert(self.key.phys@ =~= edit_ui::blank());
            assert(self.key.label@ =~= edit_ui::blank());
            return;
        }
        if let Some(f) = facts {
            self.focus(f, phys, words);
            self.panel.editing_global = false;
            self.key.phys = strings::copy(phys);
            self.key.armed = false;
        }
    }

    fn set_layer(&mut self, name: &str, chords: &Option<Vec<Setting>>)
        ensures
            final(self)@ == layer_set(old(self)@, name@, *chords),
    {
        self.cancel_delete_layer();
        self.layers.rename_target = String::new();
        self.layers.rename_name = String::new();
        assert(self.layers.rename_target@ =~= edit_ui::blank());
        assert(self.layers.rename_name@ =~= edit_ui::blank());
        self.panel.editing_global = false;
        self.layers.can_rename = edit_rows::renameable(name);
        self.layers.layer = strings::copy(name);
        if strings::same(self.panel.board_mode.as_str(), "chord") {
            self.chord.relist(chords, true);
        }
    }

    /// A section was picked: edits land in it from now on. `facts` are those of the
    /// selected key in that section.
    pub fn pick_edit_layer(
        &mut self,
        name: &str,
        chords: &Option<Vec<Setting>>,
        facts: &Option<KeyFacts>,
        words: &Vec<ModWord>,
    )
        ensures
            final(self)@ == layer_picked(
                old(self)@,
                name@,
                *chords,
                facts_of(*facts),
                text::views(words@),
            ),
    {
        let phys = strings::copy(self.key.phys.as_str());
        self.set_layer(name, chords);
        if !phys.as_str().is_empty() {
            if let Some(f) = facts {
                self.focus(f, phys.as_str(), words);
            }
        }
    }
}

// ---------------------------------------------------------------------------
// Layers
// ---------------------------------------------------------------------------

/// The forms after the focused section changed under an edit of the layers: the chooser,
/// the hold targets, the chords and the warnings follow, and no key is selected.
pub open spec fn refocused(
    u: EditUiView,
    layer: Seq<char>,
    s: EditSession,
    vocab: Vocabulary,
) -> EditUiView {
    let now = edit_ui::shown_of(s, text::texts(vocab.modifiers@));
    EditUiView {
        layers: LayerFormView {
            layers: now.layers,
            holds: now.holds,
            can_rename: edit_rows::may_rename(layer),
            layer,
            ..u.layers
        },
        chord: ChordFormView {
            rows: edit_ui::layer_rows(s, layer),
            action: edit_ui::blank(),
            ..edit_ui::builder_cleared(u.chord)
        },
        key: KeyFormView {
            phys: edit_ui::blank(),
            mode: "simple"@,
            current: edit_ui::blank(),
            value: edit_ui::blank(),
            armed: false,
            ..u.key
        },
        panel: PanelView { dirty: now.dirty, warnings: now.warnings, ..u.panel },
        ..u
    }
}

/// The forms with the capture of the next key armed or not.
pub open spec fn capture_set(u: EditUiView, armed: bool) -> EditUiView {
    EditUiView { key: KeyFormView { armed, ..u.key }, ..u }
}

/// The forms with an editor chosen for the selected key.
pub open spec fn editor_chosen(u: EditUiView, mode: Seq<char>) -> EditUiView {
    EditUiView { key: KeyFormView { mode, ..u.key }, ..u }
}

/// The forms without the prompt that asks whether to delete the config.
pub open spec fn prompt_gone(u: EditUiView) -> EditUiView {
    EditUiView { panel: PanelView { delete_config_prompt: false, ..u.panel }, ..u }
}

/// The forms with the backups offered or not.
pub open spec fn backups_offered(u: EditUiView, any: bool) -> EditUiView {
    EditUiView { panel: PanelView { has_backups: any, ..u.panel }, ..u }
}

/// A reason as the banner shows it.
pub open spec fn warned(u: EditUiView, e: Seq<char>) -> EditUiView {
    EditUiView { panel: PanelView { banner: "\u{26a0} "@ + e, ..u.panel }, ..u }
}

/// The first section, or none.
pub open spec fn survivor(s: EditSession) -> Seq<char> {
    let layers = editing::editable(text::views(s.model.sections@));
    if layers.len() > 0 {
        layers[0]
    } else {
        edit_ui::blank()
    }
}

/// A result with its texts as they read.
pub open spec fn text_result(r: Result<String, String>) -> Result<Seq<char>, Seq<char>> {
    match r {
        Ok(t) => Ok(t@),
        Err(e) => Err(e@),
    }
}

/// Why something was refused, if it was.
pub open spec fn refusal(r: Result<(), String>) -> Option<Seq<char>> {
    match r {
        Ok(_) => None,
        Err(e) => Some(e@),
    }
}

/// The forms after a layer was to be created.
pub open spec fn layer_created(
    u: EditUiView,
    created: Result<Seq<char>, Seq<char>>,
    s: EditSession,
    vocab: Vocabulary,
) -> EditUiView {
    match created {
        Err(e) => warned(u, e),
        Ok(name) => {
            let v = refocused(u, name, s, vocab);
            EditUiView {
                layers: LayerFormView {
                    new_open: false,
                    new_name: edit_ui::blank(),
                    ..v.layers
                },
                ..v
            }
        },
    }
}

/// The forms with the question whether to delete a layer.
pub open spec fn delete_raised(u: EditUiView, name: Seq<char>, s: EditSession) -> EditUiView {
    EditUiView {
        layers: LayerFormView {
            delete_prompt: name,
            delete_detail: edit_rows::delete_question(
                name,
                editing::sites(editing::pointing_at(text::views(s.model.uses@), name)),
            ),
            ..u.layers
        },
        ..u
    }
}

/// The layer to delete on confirmation, if one was asked for.
pub open spec fn delete_asked(u: EditUiView) -> Option<Seq<char>> {
    if u.layers.delete_prompt.len() == 0 {
        None
    } else {
        Some(u.layers.delete_prompt)
    }
}

/// The forms after a layer was to be deleted.
pub open spec fn layer_deleted(
    u: EditUiView,
    refused: Option<Seq<char>>,
    s: EditSession,
    vocab: Vocabulary,
) -> EditUiView {
    undeleted(
        match refused {
            Some(e) => warned(u, e),
            None => refocused(u, survivor(s), s, vocab),
        },
    )
}

/// The forms after a layer was to be renamed.
pub open spec fn layer_renamed(
    u: EditUiView,
    renamed: Result<Seq<char>, Seq<char>>,
    s: EditSession,
    vocab: Vocabulary,
) -> EditUiView {
    match renamed {
        Err(e) => warned(u, e),
        Ok(name) => {
            let v = refocused(u, name, s, vocab);
            EditUiView {
                layers: LayerFormView {
                    rename_target: edit_ui::blank(),
                    rename_name: edit_ui::blank(),
                    ..v.layers
                },
                ..v
            }
        },
    }
}

/// The forms without a delete prompt.
pub open spec fn undeleted(u: EditUiView) -> EditUiView {
    EditUiView {
        layers: LayerFormView {
            delete_prompt: edit_ui::blank(),
            delete_detail: edit_ui::blank(),
            ..u.layers
        },
        ..u
    }
}

impl EditUi {
    /// Show a reason in the banner.
    pub fn warn(&mut self, e: &str)
        ensures
            final(self)@ == warned(old(self)@, e@),
    {
        self.panel.banner = strings::cat("\u{26a0} ", e);
    }

    fn refocus(
        &mut self,
        layer: String,
        s: &EditSession,
        vocab: &Vocabulary,
    )
        ensures
            final(self)@ == refocused(old(self)@, layer@, *s, *vocab),
    {
        let layers = s.editable_sections();
        self.layers.holds = edit_rows::hold_layer_choices(&layers, &vocab.modifiers);
        self.layers.layers = layers;
        self.chord.rows = edit_rows::chord_rows(&s.chords(layer.as_str()));
        self.chord.clear_chord_builder();
        self.chord.action = String::new();
        self.layers.can_rename = edit_rows::renameable(layer.as_str());
        self.layers.layer = layer;
        self.key.phys = String::new();
        self.key.mode = strings::copy("simple");
        self.key.current = String::new();
        self.key.value = String::new();
        self.key.armed = false;
        self.panel.dirty = s.dirty();
        self.panel.warnings = edit_ui::warning_text(s);
        assert(self.chord.action@ =~= edit_ui::blank());
        assert(self.key.phys@ =~= edit_ui::blank());
        assert(self.key.current@ =~= edit_ui::blank());
        assert(self.key.value@ =~= edit_ui::blank());
    }

    /// A layer was to be created; `s` is the session as it is after that.
    pub fn create_layer(
        &mut self,
        created: Result<String, String>,
        s: &EditSession,
        vocab: &Vocabulary,
    )
        ensures
            final(self)@ == layer_created(old(self)@, text_result(created), *s, *vocab),
    {
        match created {
            Ok(name) => {
                self.refocus(name, s, vocab);
                self.layers.new_open = false;
                self.layers.new_name = String::new();
                assert(self.layers.new_name@ =~= edit_ui::blank());
            },
            Err(e) => self.warn(e.as_str()),
        }
    }

    /// A layer is asked to be deleted: raise the prompt, naming where it is still
    /// referred to.
    pub fn delete_layer(&mut self, name: &str, s: &EditSession)
        ensures
            final(self)@ == delete_raised(old(self)@, name@, *s),
    {
        let places = s.references_to(name);
        self.layers.delete_detail = edit_rows::delete_detail(name, &places);
        self.layers.delete_prompt = strings::copy(name);
    }

    /// The layer to delete on confirmation, if one was asked for.
    pub fn delete_request(&self) -> (r: Option<String>)
        ensures
            text::opt(r) == delete_asked(self@),
    {
        if self.layers.delete_prompt.as_str().is_empty() {
            None
        } else {
            Some(strings::copy(self.layers.delete_prompt.as_str()))
        }
    }

    /// The layer was to be deleted; `s` is the session as it is after that.
    pub fn confirm_delete_layer(
        &mut self,
        removed: Result<(), String>,
        s: &EditSession,
        vocab: &Vocabulary,
    )
        ensures
            final(self)@ == layer_deleted(old(self)@, refusal(removed), *s, *vocab),
    {
        match removed {
            Ok(_) => {
                let layers = s.editable_sections();
                let ghost names = text::texts(layers@);
                let next = if layers.len() > 0 {
                    strings::copy(layers[0].as_str())
                } else {
                    String::new()
                };
                assert(next@ =~= survivor(*s)) by {
                    if layers@.len() > 0 {
                        assert(names[0] == layers@[0]@);
                    }
                }
                self.refocus(next, s, vocab);
            },
            Err(e) => self.warn(e.as_str()),
        }
        self.cancel_delete_layer();
    }

    /// Dismiss the delete prompt.
    pub fn cancel_delete_layer(&mut self)
        ensures
            final(self)@ == undeleted(old(self)@),
    {
        self.layers.delete_prompt = String::new();
        self.layers.delete_detail = String::new();
        assert(self.layers.delete_prompt@ =~= edit_ui::blank());
        assert(self.layers.delete_detail@ =~= edit_ui::blank());
    }

    /// A layer was to be renamed; `s` is the session as it is after that. Where the name
    /// was refused the field stays open.
    pub fn rename_layer(
        &mut self,
        renamed: Result<String, String>,
        s: &EditSession,
        vocab: &Vocabulary,
    )
        ensures
            final(self)@ == layer_renamed(old(self)@, text_result(renamed), *s, *vocab),
    {
        match renamed {
            Ok(name) => {
                self.refocus(name, s, vocab);
                self.layers.rename_target = String::new();
                self.layers.rename_name = String::new();
                assert(self.layers.rename_target@ =~= edit_ui::blank());
                assert(self.layers.rename_name@ =~= edit_ui::blank());
            },
            Err(e) => self.warn(e.as_str()),
        }
    }
}

// ---------------------------------------------------------------------------
// Bindings
// ---------------------------------------------------------------------------

/// A binding to make: of a key in a section.
#[derive(Debug, PartialEq, Eq)]
pub struct BindRequest {
    pub layer: String,
    pub key: String,
    pub val: String,
}

pub struct BindRequestView {
    pub layer: Seq<char>,
    pub key: Seq<char>,
    pub val: Seq<char>,
}

impl View for BindRequest {
    type V = BindRequestView;

    open spec fn view(&self) -> BindRequestView {
        BindRequestView { layer: self.layer@, key: self.key@, val: self.val@ }
    }
}

/// A key in a section.
#[derive(Debug, PartialEq, Eq)]
pub struct KeyRequest {
    pub layer: String,
    pub key: String,
}

pub struct KeyRequestView {
    pub layer: Seq<char>,
    pub key: Seq<char>,
}

impl View for KeyRequest {
    type V = KeyRequestView;

    open spec fn view(&self) -> KeyRequestView {
        KeyRequestView { layer: self.layer@, key: self.key@ }
    }
}

/// The selected key in the section that is edited, if one is selected.
pub open spec fn selected(u: EditUiView) -> Option<KeyRequestView> {
    if u.key.phys.len() == 0 {
        None
    } else {
        Some(KeyRequestView { layer: u.layers.layer, key: u.key.phys })
    }
}

/// A tap/hold to make: the tap is none for a hold without one.
#[derive(Debug, PartialEq, Eq)]
pub struct TapHoldRequest {
    pub layer: String,
    pub key: String,
    pub target: String,
    pub tap: Option<String>,
    pub feel: Option<Behavior>,
}

pub struct TapHoldRequestView {
    pub layer: Seq<char>,
    pub key: Seq<char>,
    pub target: Seq<char>,
    pub tap: Option<Seq<char>>,
    pub feel: Option<Behavior>,
}

impl View for TapHoldRequest {
    type V = TapHoldRequestView;

    open spec fn view(&self) -> TapHoldRequestView {
        TapHoldRequestView {
            layer: self.layer@,
            key: self.key@,
            target: self.target@,
            tap: text::opt(self.tap),
            feel: self.feel,
        }
    }
}

/// What the tap/hold slots ask for: a tap left blank is the key itself, and a hold-only
/// key has none.
pub open spec fn tap_hold_asked(u: EditUiView, hold_only: bool) -> Option<TapHoldRequestView> {
    let target = text::trim(u.tap_hold.hold);
    let tap = text::trim(u.tap_hold.tap);
    if u.key.phys.len() == 0 || target.len() == 0 {
        None
    } else {
        Some(
            TapHoldRequestView {
                layer: u.layers.layer,
                key: u.key.phys,
                target,
                tap: if hold_only {
                    None
                } else if tap.len() == 0 {
                    Some(u.key.phys)
                } else {
                    Some(tap)
                },
                feel: edit_ui::feel_of(u.tap_hold.feel),
            },
        )
    }
}

/// What binding a value to the selected key asks for.
pub open spec fn binding_asked(u: EditUiView, value: Seq<char>) -> Option<BindRequestView> {
    if text::trim(value).len() == 0 || u.key.phys.len() == 0 {
        None
    } else {
        Some(
            BindRequestView { layer: u.layers.layer, key: u.key.phys, val: text::trim(value) },
        )
    }
}

/// What labelling the selected key asks for.
pub open spec fn label_asked(u: EditUiView, label: Seq<char>) -> Option<BindRequestView> {
    match selected(u) {
        Some(k) => Some(BindRequestView { layer: k.layer, key: k.key, val: text::trim(label) }),
        None => None,
    }
}

/// The warnings of a session, one on each line.
pub open spec fn warnings_of(s: EditSession) -> Seq<char> {
    text::join(editing::orphan_lines(text::views(s.model.orphans@)), "\n"@)
}

/// The forms after a binding was made, or refused.
pub open spec fn binding_committed(
    u: EditUiView,
    refused: Option<Seq<char>>,
    f: KeyFactsView,
    phys: Seq<char>,
    value: Seq<char>,
    words: Seq<ModWordView>,
    s: EditSession,
) -> EditUiView {
    match refused {
        Some(e) => warned(u, e),
        None => bound(u, f, phys, words, value, warnings_of(s), s.created || s.model.edited),
    }
}

/// The forms after a macro was set, or refused.
pub open spec fn macro_committed(
    u: EditUiView,
    refused: Option<Seq<char>>,
    f: KeyFactsView,
    value: Seq<char>,
    words: Seq<ModWordView>,
    s: EditSession,
) -> EditUiView {
    match refused {
        Some(e) => warned(u, e),
        None => EditUiView {
            key: KeyFormView {
                is_macro: f.mac is Some,
                current: value,
                value,
                armed: false,
                ..u.key
            },
            mac: edit_ui::macro_seeded(u.mac, f.mac, words),
            panel: PanelView {
                warnings: warnings_of(s),
                banner: edit_ui::blank(),
                dirty: s.created || s.model.edited,
                ..u.panel
            },
            ..u
        },
    }
}

/// The forms after a label was set or cleared, or that was refused.
pub open spec fn label_committed(
    u: EditUiView,
    refused: Option<Seq<char>>,
    label: Option<Seq<char>>,
    dirty: bool,
) -> EditUiView {
    match refused {
        Some(e) => warned(u, e),
        None => EditUiView {
            key: KeyFormView {
                label: edit_ui::or_blank(label),
                has_label: edit_ui::or_blank(label).len() > 0,
                ..u.key
            },
            panel: PanelView { dirty, ..u.panel },
            ..u
        },
    }
}

/// The forms after a value was bound, or the key made transparent: the panels follow, the
/// value field holds what was bound, and the capture is disarmed.
pub open spec fn bound(
    u: EditUiView,
    f: KeyFactsView,
    phys: Seq<char>,
    words: Seq<ModWordView>,
    value: Seq<char>,
    warnings: Seq<char>,
    dirty: bool,
) -> EditUiView {
    EditUiView {
        key: KeyFormView {
            is_macro: f.mac is Some,
            is_tap_hold: f.tap_hold is Some,
            current: value,
            value,
            armed: false,
            ..u.key
        },
        tap_hold: edit_ui::slots(f.tap_hold, f.binding, phys),
        mac: edit_ui::macro_seeded(u.mac, f.mac, words),
        panel: PanelView { warnings, dirty, ..u.panel },
        ..u
    }
}

impl EditUi {
    /// What binding the value to the selected key asks for; none without a value or a
    /// key.
    pub fn apply_binding(&self, value: &str) -> (r: Option<BindRequest>)
        ensures
            (match r {
                Some(b) => Some(b@),
                None => None,
            }) == binding_asked(self@, value@),
    {
        let val = strings::trim(value);
        if val.as_str().is_empty() || self.key.phys.as_str().is_empty() {
            return None;
        }
        Some(
            BindRequest {
                layer: strings::copy(self.layers.layer.as_str()),
                key: strings::copy(self.key.phys.as_str()),
                val,
            },
        )
    }

    fn selected_key(&self) -> (r: Option<KeyRequest>)
        ensures
            (match r {
                Some(k) => Some(k@),
                None => None,
            }) == selected(self@),
    {
        if self.key.phys.as_str().is_empty() {
            return None;
        }
        Some(
            KeyRequest {
                layer: strings::copy(self.layers.layer.as_str()),
                key: strings::copy(self.key.phys.as_str()),
            },
        )
    }

    /// The key to make transparent: the selected one, if any.
    pub fn make_transparent(&self) -> (r: Option<KeyRequest>)
        ensures
            (match r {
                Some(k) => Some(k@),
                None => None,
            }) == selected(self@),
    {
        self.selected_key()
    }

    /// What labelling the selected key asks for; none without a key. The label is trimmed,
    /// and may be empty, which clears it.
    pub fn set_label(&self, label: &str) -> (r: Option<BindRequest>)
        ensures
            (match r {
                Some(b) => Some(b@),
                None => None,
            }) == label_asked(self@, label@),
    {
        match self.selected_key() {
            Some(k) => Some(BindRequest { layer: k.layer, key: k.key, val: strings::trim(label) }),
            None => None,
        }
    }

    /// The key whose label is cleared: the selected one, if any.
    pub fn clear_label(&self) -> (r: Option<KeyRequest>)
        ensures
            (match r {
                Some(k) => Some(k@),
                None => None,
            }) == selected(self@),
    {
        self.selected_key()
    }

    /// What making the selected key dual-function asks for; none without a key or a
    /// target.
    pub fn apply_tap_hold(&self, hold_only: bool) -> (r: Option<TapHoldRequest>)
        ensures
            (match r {
                Some(t) => Some(t@),
                None => None,
            }) == tap_hold_asked(self@, hold_only),
    {
        let target = strings::trim(self.tap_hold.hold.as_str());
        if self.key.phys.as_str().is_empty() || target.as_str().is_empty() {
            return None;
        }
        let tap = if hold_only {
            None
        } else {
            let t = strings::trim(self.tap_hold.tap.as_str());
            if t.as_str().is_empty() {
                Some(strings::copy(self.key.phys.as_str()))
            } else {
                Some(t)
            }
        };
        Some(
            TapHoldRequest {
                layer: strings::copy(self.layers.layer.as_str()),
                key: strings::copy(self.key.phys.as_str()),
                target,
                tap,
                feel: edit_ui::feel_from_str(self.tap_hold.feel.as_str()),
            },
        )
    }

    /// A binding or a tap/hold of the selected key was set or cleared, or that was
    /// refused: `facts` are those of the key after it, `value` is what it is bound to now, and `s` the session.
    pub fn commit_binding(
        &mut self,
        result: Result<(), String>,
        phys: &str,
        facts: &KeyFacts,
        value: &str,
        words: &Vec<ModWord>,
        s: &EditSession,
    )
        ensures
            final(self)@ == binding_committed(
                old(self)@,
                refusal(result),
                facts@,
                phys@,
                value@,
                text::views(words@),
                *s,
            ),
    {
        match result {
            Ok(_) => {
                self.seed_tap_hold(&facts.tap_hold, &facts.binding, phys);
                self.mac.seed_macro(&facts.mac, words);
                self.key.is_macro = facts.mac.is_some();
                self.panel.warnings = edit_ui::warning_text(s);
                self.key.current = strings::copy(value);
                self.key.value = strings::copy(value);
                self.key.armed = false;
                self.panel.dirty = s.dirty();
            },
            Err(e) => self.warn(e.as_str()),
        }
    }

    /// A macro was set on the selected key, or that was refused: `facts` are those of the
    /// key after it, `value` is what it is bound to now, and `s` the session. Only the
    /// macro's own form is seeded again.
    pub fn commit_macro(
        &mut self,
        result: Result<(), String>,
        facts: &KeyFacts,
        value: &str,
        words: &Vec<ModWord>,
        s: &EditSession,
    )
        ensures
            final(self)@ == macro_committed(
                old(self)@,
                refusal(result),
                facts@,
                value@,
                text::views(words@),
                *s,
            ),
    {
        match result {
            Ok(_) => {
                self.mac.seed_macro(&facts.mac, words);
                self.key.is_macro = facts.mac.is_some();
                self.panel.warnings = edit_ui::warning_text(s);
                self.key.current = strings::copy(value);
                self.key.value = strings::copy(value);
                self.key.armed = false;
                self.panel.banner = String::new();
                assert(self.panel.banner@ =~= edit_ui::blank());
                self.panel.dirty = s.dirty();
            },
            Err(e) => self.warn(e.as_str()),
        }
    }

    /// A label was set or cleared, or that was refused.
    pub fn commit_label(&mut self, result: Result<(), String>, label: &Option<String>, dirty: bool)
        ensures
            final(self)@ == label_committed(old(self)@, refusal(result), text::opt(*label), dirty),
    {
        match result {
            Ok(_) => {
                self.seed_label(label);
                self.panel.dirty = dirty;
            },
            Err(e) => self.warn(e.as_str()),
        }
    }

    /// Arm or disarm the capture of the next key pressed.
    pub fn arm_capture(&mut self)
        ensures
            final(self)@ == capture_set(old(self)@, !old(self)@.key.armed),
    {
        self.key.armed = !self.key.armed;
    }

    /// Disarm the capture, as the launch of an apply does: keyd's reload bounces the
    /// virtual device meanwhile.
    pub fn disarm_capture(&mut self)
        ensures
            final(self)@ == capture_set(old(self)@, false),
    {
        self.key.armed = false;
    }

    /// Choose the selected key's editor.
    pub fn set_key_mode(&mut self, mode: &str)
        ensures
            final(self)@ == editor_chosen(old(self)@, mode@),
    {
        self.key.mode = strings::copy(mode);
    }
}

// ---------------------------------------------------------------------------
// Macros
// ---------------------------------------------------------------------------

/// The forms with the macro's steps replaced and shown.
pub open spec fn with_steps(
    u: EditUiView,
    steps: Seq<MacroTokenView>,
    words: Seq<ModWordView>,
) -> EditUiView {
    EditUiView {
        mac: MacroFormView { steps, rows: edit_rows::rows_of(words, steps), ..u.mac },
        ..u
    }
}

/// A pause that keyd takes: a whole number of milliseconds under 1024.
pub open spec fn pause_of(input: Seq<char>) -> Option<nat> {
    match text::parse_number(text::trim(input), 10, 65535) {
        Some(n) => if n < 1024 {
            Some(n)
        } else {
            None
        },
        None => None,
    }
}

/// The letters of the modifiers that are on, in keyd's order.
pub open spec fn letters_on(m: MacroFormView) -> Seq<char> {
    (if m.chord_c {
        seq!['C']
    } else {
        Seq::empty()
    }) + (if m.chord_m {
        seq!['M']
    } else {
        Seq::empty()
    }) + (if m.chord_a {
        seq!['A']
    } else {
        Seq::empty()
    }) + (if m.chord_s {
        seq!['S']
    } else {
        Seq::empty()
    }) + (if m.chord_g {
        seq!['G']
    } else {
        Seq::empty()
    })
}

/// The forms with a text in the banner.
pub open spec fn told(u: EditUiView, banner: Seq<char>) -> EditUiView {
    EditUiView { panel: PanelView { banner, ..u.panel }, ..u }
}

/// The forms after a chord step was asked for; `is_key` says that keyd has the key.
pub open spec fn chord_step_added(u: EditUiView, is_key: bool, words: Seq<ModWordView>) -> EditUiView {
    let key = text::trim(u.mac.chord_key);
    if key.len() == 0 {
        warned(u, "pick a key for the chord first"@)
    } else if !is_key {
        warned(
            u,
            "\u{201c}"@ + key
                + "\u{201d} isn\u{2019}t a key name \u{2014} use pick\u{2026} to choose one"@,
        )
    } else {
        let step = MacroTokenView::Chord { mods: letters_on(u.mac), keys: seq![key] };
        let v = EditUiView { mac: edit_ui::chord_step_cleared(u.mac), ..u };
        told(with_steps(v, u.mac.steps.push(step), words), edit_ui::blank())
    }
}

/// The steps with two of them swapped.
pub open spec fn swapped(steps: Seq<MacroTokenView>, i: int, j: int) -> Seq<MacroTokenView> {
    if 0 <= i < steps.len() && 0 <= j < steps.len() {
        steps.update(i, steps[j]).update(j, steps[i])
    } else {
        steps
    }
}

/// The forms after the text that was typed was added as a step.
pub open spec fn text_step_added(u: EditUiView, words: Seq<ModWordView>) -> EditUiView {
    if u.mac.text_input.len() == 0 {
        u
    } else {
        with_steps(
            EditUiView { mac: MacroFormView { text_input: edit_ui::blank(), ..u.mac }, ..u },
            u.mac.steps.push(MacroTokenView::Text(u.mac.text_input)),
            words,
        )
    }
}

/// The forms after the pause that was typed was added as a step.
pub open spec fn pause_step_added(u: EditUiView, words: Seq<ModWordView>) -> EditUiView {
    match pause_of(u.mac.delay_input) {
        None => warned(u, "a pause must be a whole number of milliseconds under 1024"@),
        Some(n) => told(
            with_steps(
                EditUiView { mac: MacroFormView { delay_input: edit_ui::blank(), ..u.mac }, ..u },
                u.mac.steps.push(MacroTokenView::Delay(n)),
                words,
            ),
            edit_ui::blank(),
        ),
    }
}

/// The forms after a step was removed.
pub open spec fn step_removed(u: EditUiView, idx: int, words: Seq<ModWordView>) -> EditUiView {
    with_steps(
        u,
        if 0 <= idx < u.mac.steps.len() {
            u.mac.steps.remove(idx)
        } else {
            u.mac.steps
        },
        words,
    )
}

/// The forms after a step was moved.
pub open spec fn step_moved(
    u: EditUiView,
    idx: int,
    delta: int,
    words: Seq<ModWordView>,
) -> EditUiView {
    with_steps(u, swapped(u.mac.steps, idx, idx + delta), words)
}

/// A macro to bind, or what is missing from it.
pub open spec fn macro_asked(u: EditUiView) -> Result<Option<(nat, nat)>, Seq<char>> {
    if u.mac.steps.len() == 0 {
        Err("add at least one step"@)
    } else if !u.mac.repeat_on {
        Ok(None)
    } else {
        match (
            text::parse_number(text::trim(u.mac.repeat_timeout), 10, 4294967295),
            text::parse_number(text::trim(u.mac.repeat_count), 10, 4294967295),
        ) {
            (Some(t), Some(n)) => Ok(Some((t, n))),
            _ => Err("repeat needs two whole-millisecond numbers"@),
        }
    }
}

impl MacroForm {
    /// The letters of the modifiers that are on.
    fn letters(&self) -> (r: Vec<char>)
        ensures
            r@ == letters_on(self@),
    {
        let mut mods: Vec<char> = Vec::new();
        if self.chord_c {
            mods.push('C');
        }
        if self.chord_m {
            mods.push('M');
        }
        if self.chord_a {
            mods.push('A');
        }
        if self.chord_s {
            mods.push('S');
        }
        if self.chord_g {
            mods.push('G');
        }
        assert(mods@ =~= letters_on(self@));
        mods
    }
}

impl EditUi {
    fn push_step(&mut self, step: MacroToken, words: &Vec<ModWord>)
        ensures
            final(self)@ == with_steps(
                old(self)@,
                old(self)@.mac.steps.push(step@),
                text::views(words@),
            ),
    {
        let ghost before = text::views(self.mac.steps@);
        let ghost v = step@;
        self.mac.steps.push(step);
        assert(text::views(self.mac.steps@) =~= before.push(v));
        self.mac.push_macro_rows(words);
    }

    /// Add the text that was typed as a step.
    pub fn macro_add_text(&mut self, words: &Vec<ModWord>)
        ensures
            final(self)@ == text_step_added(old(self)@, text::views(words@)),
    {
        if self.mac.text_input.as_str().is_empty() {
            return;
        }
        let t = strings::copy(self.mac.text_input.as_str());
        self.mac.text_input = String::new();
        assert(self.mac.text_input@ =~= edit_ui::blank());
        self.push_step(MacroToken::Text(t), words);
    }

    /// Add the pause that was typed as a step.
    pub fn macro_add_delay(&mut self, words: &Vec<ModWord>)
        ensures
            final(self)@ == pause_step_added(old(self)@, text::views(words@)),
    {
        let raw = strings::trim(self.mac.delay_input.as_str());
        match strings::parse_number(raw.as_str(), 10, 65535) {
            Some(ms) if ms < 1024 => {
                self.mac.delay_input = String::new();
                assert(self.mac.delay_input@ =~= edit_ui::blank());
                self.push_step(MacroToken::Delay(ms as u16), words);
                self.panel.banner = String::new();
                assert(self.panel.banner@ =~= edit_ui::blank());
            },
            _ => {
                self.warn("a pause must be a whole number of milliseconds under 1024");
            },
        }
    }

    /// The key of the chord step, for asking whether keyd has it.
    pub fn macro_chord_key(&self) -> (r: String)
        ensures
            r@ == text::trim(self@.mac.chord_key),
    {
        strings::trim(self.mac.chord_key.as_str())
    }

    /// Add the chord that was put together as a step; `is_key` says that keyd has its
    /// key.
    pub fn macro_add_chord(&mut self, is_key: bool, words: &Vec<ModWord>)
        ensures
            final(self)@ == chord_step_added(old(self)@, is_key, text::views(words@)),
    {
        let key = self.macro_chord_key();
        if key.as_str().is_empty() {
            self.warn("pick a key for the chord first");
            return;
        }
        if !is_key {
            let t = strings::cat3(
                "\u{201c}",
                key.as_str(),
                "\u{201d} isn\u{2019}t a key name \u{2014} use pick\u{2026} to choose one",
            );
            self.warn(t.as_str());
            return;
        }
        let mods = self.mac.letters();
        let ghost k = key@;
        let mut keys: Vec<String> = Vec::new();
        keys.push(key);
        assert(text::texts(keys@) =~= seq![k]);
        self.mac.reset_macro_chord_form();
        self.push_step(MacroToken::Chord { mods, keys }, words);
        self.panel.banner = String::new();
        assert(self.panel.banner@ =~= edit_ui::blank());
    }

    /// Remove a step, if there is one at the place.
    pub fn macro_remove(&mut self, idx: i32, words: &Vec<ModWord>)
        ensures
            final(self)@ == step_removed(old(self)@, idx as int, text::views(words@)),
    {
        let ghost before = text::views(self.mac.steps@);
        if idx >= 0 && (idx as usize) < self.mac.steps.len() {
            self.mac.steps.remove(idx as usize);
            assert(text::views(self.mac.steps@) =~= before.remove(idx as int));
        }
        self.mac.push_macro_rows(words);
    }

    /// Move a step by `delta` places, swapping it with the one there, if both places
    /// are there.
    pub fn macro_move(&mut self, idx: i32, delta: i32, words: &Vec<ModWord>)
        requires
            i32::MIN <= idx + delta <= i32::MAX,
        ensures
            final(self)@ == step_moved(old(self)@, idx as int, delta as int, text::views(words@)),
    {
        let j: i32 = idx + delta;
        let ghost before = text::views(self.mac.steps@);
        let n: usize = self.mac.steps.len();
        if idx >= 0 && (idx as usize) < n && j >= 0 && (j as usize) < n {
            let a: usize = idx as usize;
            let b: usize = j as usize;
            let mut copy = edit_ui::copy_steps(&self.mac.steps);
            let mut steps = edit_ui::copy_steps(&self.mac.steps);
            let ghost c = text::views(copy@);
            assert(c.len() == copy@.len() && text::views(steps@).len() == steps@.len());
            assert(before.len() == n);
            assert(c[a as int] == copy@[a as int]@ && c[b as int] == copy@[b as int]@);
            if a < b {
                let at_b = copy.remove(b);
                let at_a = copy.remove(a);
                steps.set(a, at_b);
                steps.set(b, at_a);
            } else if b < a {
                let at_a = copy.remove(a);
                let at_b = copy.remove(b);
                steps.set(a, at_b);
                steps.set(b, at_a);
            }
            self.mac.steps = steps;
            assert(text::views(self.mac.steps@) =~= swapped(before, idx as int, j as int));
        }
        self.mac.push_macro_rows(words);
    }

    /// The macro that the selected key is to be bound to: none without a key, and what is
    /// missing where it is not complete.
    pub fn apply_macro(&self) -> (r: Option<Result<edit_ui::Macro, String>>)
        ensures
            r is None <==> self@.key.phys.len() == 0,
            match r {
                None => true,
                Some(Ok(m)) => macro_asked(self@) == Ok::<_, Seq<char>>(m@.repeat) && m@.steps
                    == self@.mac.steps,
                Some(Err(e)) => macro_asked(self@) == Err::<Option<(nat, nat)>, _>(e@),
            },
    {
        if self.key.phys.as_str().is_empty() {
            return None;
        }
        assert(self@.mac.steps.len() == self.mac.steps@.len());
        if self.mac.steps.len() == 0 {
            return Some(Err(strings::copy("add at least one step")));
        }
        let repeat = if self.mac.repeat_on {
            let t = strings::trim(self.mac.repeat_timeout.as_str());
            let n = strings::trim(self.mac.repeat_count.as_str());
            match (
                strings::parse_number(t.as_str(), 10, 4294967295),
                strings::parse_number(n.as_str(), 10, 4294967295),
            ) {
                (Some(a), Some(b)) => Some((a as u32, b as u32)),
                _ => {
                    return Some(
                        Err(strings::copy("repeat needs two whole-millisecond numbers")),
                    );
                },
            }
        } else {
            None
        };
        Some(Ok(edit_ui::Macro { steps: edit_ui::copy_steps(&self.mac.steps), repeat }))
    }
}

/// A step that is moved and moved back is where it was, and so are all others.
pub proof fn moving_back_undoes_a_move(steps: Seq<MacroTokenView>, i: int, j: int)
    ensures
        swapped(swapped(steps, i, j), j, i) == steps,
        swapped(steps, i, j).len() == steps.len(),
{
    if 0 <= i < steps.len() && 0 <= j < steps.len() {
        assert(swapped(swapped(steps, i, j), j, i) =~= steps);
    }
}

// ---------------------------------------------------------------------------
// The key picker
// ---------------------------------------------------------------------------

/// The forms after a key was picked for a field; it is only filled in, never applied. A
/// macro step goes straight into the list.
pub open spec fn key_picked(
    u: EditUiView,
    target: Seq<char>,
    name: Seq<char>,
    words: Seq<ModWordView>,
) -> EditUiView {
    if target == "tap"@ {
        EditUiView { tap_hold: TapHoldFormView { tap: name, ..u.tap_hold }, ..u }
    } else if target == "chord_action"@ {
        EditUiView { chord: ChordFormView { action: name, ..u.chord }, ..u }
    } else if target == "macro_token"@ {
        with_steps(u, u.mac.steps.push(MacroTokenView::Key(name)), words)
    } else if target == "macro_chord_key"@ {
        EditUiView { mac: MacroFormView { chord_key: name, ..u.mac }, ..u }
    } else {
        EditUiView { key: KeyFormView { value: name, ..u.key }, ..u }
    }
}

/// The picker with the keys that match a query listed, the best first and no more than fit.
pub open spec fn listing(
    p: PickerFormView,
    keys: Seq<Seq<char>>,
    query: Seq<char>,
) -> PickerFormView {
    let ranked = picker::ranked_by(keys, picker::query_of(query));
    PickerFormView {
        results: picker::first_of(ranked, picker::RESULT_CAP as nat),
        truncated: picker::dropped(ranked, picker::RESULT_CAP as nat),
        ..p
    }
}

/// The forms with the picker open for a field.
pub open spec fn picker_opened(
    u: EditUiView,
    target: Seq<char>,
    keys: Seq<Seq<char>>,
) -> EditUiView {
    EditUiView {
        key: KeyFormView { armed: false, ..u.key },
        picker: PickerFormView {
            open: true,
            target,
            query: edit_ui::blank(),
            ..listing(u.picker, keys, ""@)
        },
        ..u
    }
}

/// The forms with the picker's list narrowed down to a query.
pub open spec fn picker_filtered(
    u: EditUiView,
    keys: Seq<Seq<char>>,
    query: Seq<char>,
) -> EditUiView {
    EditUiView { picker: listing(u.picker, keys, query), ..u }
}

/// The forms after a key was picked, with the picker closed.
pub open spec fn picked(u: EditUiView, name: Seq<char>, words: Seq<ModWordView>) -> EditUiView {
    EditUiView {
        picker: PickerFormView { open: false, query: edit_ui::blank(), ..u.picker },
        ..key_picked(u, u.picker.target, name, words)
    }
}

impl EditUi {
    /// Open the picker for a field, with an empty query and every key in the list. An armed
    /// capture is disarmed: it must not fire into a pick.
    pub fn open_picker(&mut self, target: &str, keys: &Vec<String>)
        ensures
            final(self)@ == picker_opened(old(self)@, target@, text::texts(keys@)),
    {
        self.picker.target = strings::copy(target);
        self.picker.query = String::new();
        assert(self.picker.query@ =~= edit_ui::blank());
        self.key.armed = false;
        let (results, truncated) = picker::rank_keys(keys, "", picker::RESULT_CAP);
        self.picker.results = results;
        self.picker.truncated = truncated;
        self.picker.open = true;
    }

    /// List the keys that match the query.
    pub fn filter_keys(&mut self, keys: &Vec<String>, query: &str)
        ensures
            final(self)@ == picker_filtered(old(self)@, text::texts(keys@), query@),
    {
        let (results, truncated) = picker::rank_keys(keys, query, picker::RESULT_CAP);
        self.picker.results = results;
        self.picker.truncated = truncated;
    }

    /// A key was picked: it fills the field that the picker was opened for, and the picker
    /// closes with its query emptied.
    pub fn pick_key(&mut self, name: &str, words: &Vec<ModWord>)
        ensures
            final(self)@ == picked(old(self)@, name@, text::views(words@)),
    {
        let target = strings::copy(self.picker.target.as_str());
        self.fill_in(target.as_str(), name, words);
        self.picker.open = false;
        self.picker.query = String::new();
        assert(self.picker.query@ =~= edit_ui::blank());
    }

    fn fill_in(&mut self, target: &str, name: &str, words: &Vec<ModWord>)
        ensures
            final(self)@ == key_picked(old(self)@, target@, name@, text::views(words@)),
    {
        if strings::same(target, "tap") {
            self.tap_hold.tap = strings::copy(name);
        } else if strings::same(target, "chord_action") {
            self.chord.action = strings::copy(name);
        } else if strings::same(target, "macro_token") {
            self.push_step(MacroToken::Key(strings::copy(name)), words);
        } else if strings::same(target, "macro_chord_key") {
            self.mac.chord_key = strings::copy(name);
        } else {
            self.key.value = strings::copy(name);
        }
    }
}

// ---------------------------------------------------------------------------
// Chords
// ---------------------------------------------------------------------------

/// The forms after the board was switched between editing one key and building a chord:
/// what the other mode had selected is dropped.
pub open spec fn board_switched(u: EditUiView, mode: Seq<char>, chords: Option<Vec<Setting>>) -> EditUiView {
    EditUiView {
        key: KeyFormView { phys: edit_ui::blank(), ..u.key },
        chord: relisted(u.chord, chords, mode == "chord"@),
        panel: PanelView { board_mode: mode, ..u.panel },
        ..u
    }
}

/// The action of the first chord with the order-independent spelling.
pub open spec fn action_of(chords: Seq<SettingView>, id: Seq<char>) -> Option<Seq<char>>
    decreases chords.len(),
{
    if chords.len() == 0 {
        None
    } else if chords[0].id == id {
        Some(chords[0].val)
    } else {
        action_of(chords.skip(1), id)
    }
}

/// The builder filled with a chord that is there.
pub open spec fn chord_loaded(
    c: ChordFormView,
    chord: Seq<char>,
    action: Option<Seq<char>>,
) -> ChordFormView {
    ChordFormView {
        keys: edit_rows::members_of(chord),
        orig: chord,
        action: match action {
            Some(a) => a,
            None => c.action,
        },
        ..c
    }
}

fn find_action(chords: &Vec<Setting>, id: &str) -> (r: Option<String>)
    ensures
        text::opt(r) == action_of(text::views(chords@), id@),
{
    let ghost all = text::views(chords@);
    let mut i: usize = 0;
    assert(all.skip(0) =~= all);
    while i < chords.len()
        invariant
            i <= chords@.len(),
            all == text::views(chords@),
            action_of(all.skip(i as int), id@) == action_of(all, id@),
        decreases chords.len() - i,
    {
        assert(all.skip(i as int)[0] == chords@[i as int]@);
        if strings::same(chords[i].id.as_str(), id) {
            return Some(strings::copy(chords[i].val.as_str()));
        }
        assert(all.skip(i as int).skip(1) =~= all.skip(i + 1));
        i = i + 1;
    }
    None
}

/// Setting a chord leaves the one that was edited to be removed.
pub open spec fn leaves_old_chord(orig: Seq<char>, before: Seq<char>, after: Seq<char>) -> bool {
    orig.len() > 0 && before != after
}

/// The forms with a chord that is there in the builder.
pub open spec fn chord_edited(
    u: EditUiView,
    chord: Seq<char>,
    id: Seq<char>,
    chords: Option<Seq<SettingView>>,
) -> EditUiView {
    EditUiView {
        chord: chord_loaded(
            u.chord,
            chord,
            match chords {
                Some(c) => action_of(c, id),
                None => None,
            },
        ),
        ..u
    }
}

/// The chords of a session, if there is one.
pub open spec fn settings_opt(c: Option<Vec<Setting>>) -> Option<Seq<SettingView>> {
    match c {
        Some(v) => Some(text::views(v@)),
        None => None,
    }
}

/// The forms after a chord was set, or refused: the builder is emptied.
pub open spec fn chord_committed(
    u: EditUiView,
    refused: Option<Seq<char>>,
    s: EditSession,
) -> EditUiView {
    match refused {
        Some(e) => warned(u, e),
        None => EditUiView {
            chord: ChordFormView {
                action: edit_ui::blank(),
                rows: edit_ui::layer_rows(s, u.layers.layer),
                ..edit_ui::builder_cleared(u.chord)
            },
            panel: PanelView {
                warnings: warnings_of(s),
                dirty: s.created || s.model.edited,
                ..u.panel
            },
            ..u
        },
    }
}

/// The forms after a chord was removed, or that was refused: the builder stays.
pub open spec fn chord_dropped(
    u: EditUiView,
    refused: Option<Seq<char>>,
    s: EditSession,
) -> EditUiView {
    match refused {
        Some(e) => warned(u, e),
        None => EditUiView {
            chord: ChordFormView { rows: edit_ui::layer_rows(s, u.layers.layer), ..u.chord },
            panel: PanelView {
                warnings: warnings_of(s),
                dirty: s.created || s.model.edited,
                ..u.panel
            },
            ..u
        },
    }
}

/// Whether setting a chord leaves the one that was edited to be removed: its keys were
/// changed, so the new ones are a different line. `before` and `after` are the
/// order-independent spellings.
pub fn drops_edited_chord(orig: &str, before: &str, after: &str) -> (r: bool)
    ensures
        r == leaves_old_chord(orig@, before@, after@),
{
    !orig.is_empty() && !strings::same(before, after)
}

impl EditUi {
    /// Switch the board between editing one key and building a chord.
    pub fn set_board_mode(&mut self, mode: &str, chords: &Option<Vec<Setting>>)
        ensures
            final(self)@ == board_switched(old(self)@, mode@, *chords),
    {
        self.key.phys = String::new();
        assert(self.key.phys@ =~= edit_ui::blank());
        self.chord.relist(chords, strings::same(mode, "chord"));
        self.panel.board_mode = strings::copy(mode);
    }

    /// Fill the builder from a chord that is there; `id` is its order-independent
    /// spelling and `chords` are the layer's.
    pub fn edit_chord(&mut self, chord: &str, id: &str, chords: &Option<Vec<Setting>>)
        ensures
            final(self)@ == chord_edited(old(self)@, chord@, id@, settings_opt(*chords)),
    {
        self.chord.keys = edit_rows::chord_members(chord);
        self.chord.orig = strings::copy(chord);
        if let Some(c) = chords {
            if let Some(a) = find_action(c, id) {
                self.chord.action = a;
            }
        }
    }

    /// A chord was set, or that was refused; `s` is the session as it is after that.
    pub fn commit_chord(
        &mut self,
        result: Result<(), String>,
        s: &EditSession,
    )
        ensures
            final(self)@ == chord_committed(old(self)@, refusal(result), *s),
    {
        match result {
            Ok(_) => {
                self.panel.warnings = edit_ui::warning_text(s);
                self.chord.rows = edit_rows::chord_rows(&s.chords(self.layers.layer.as_str()));
                self.chord.clear_chord_builder();
                self.chord.action = String::new();
                assert(self.chord.action@ =~= edit_ui::blank());
                self.panel.dirty = s.dirty();
            },
            Err(e) => self.warn(e.as_str()),
        }
    }

    /// A chord was removed, or that was refused; `s` is the session as it is after that.
    pub fn commit_removed_chord(
        &mut self,
        result: Result<(), String>,
        s: &EditSession,
    )
        ensures
            final(self)@ == chord_dropped(old(self)@, refusal(result), *s),
    {
        match result {
            Ok(_) => {
                self.panel.warnings = edit_ui::warning_text(s);
                self.chord.rows = edit_rows::chord_rows(&s.chords(self.layers.layer.as_str()));
                self.panel.dirty = s.dirty();
            },
            Err(e) => self.warn(e.as_str()),
        }
    }
}

// ---------------------------------------------------------------------------
// Global options
// ---------------------------------------------------------------------------

/// The rows of the options form for a session.
pub open spec fn option_rows(s: EditSession, vocab: Vocabulary) -> Seq<edit_rows::GlobalRowView> {
    edit_rows::global_rows_of(
        text::views(vocab.options@),
        editing::options_of(s.model.global),
    )
}

/// The forms with the options form opened, or closed where it was open.
pub open spec fn options_toggled(
    u: EditUiView,
    s: Option<EditSession>,
    vocab: Vocabulary,
) -> EditUiView {
    if u.panel.editing_global {
        EditUiView { panel: PanelView { editing_global: false, ..u.panel }, ..u }
    } else {
        match s {
            None => u,
            Some(x) => EditUiView {
                key: KeyFormView { phys: edit_ui::blank(), ..u.key },
                panel: PanelView {
                    editing_global: true,
                    global_rows: option_rows(x, vocab),
                    ..u.panel
                },
                ..u
            },
        }
    }
}

/// The forms after an option was set or cleared, or that was refused.
pub open spec fn option_committed(
    u: EditUiView,
    refused: Option<Seq<char>>,
    s: EditSession,
    vocab: Vocabulary,
) -> EditUiView {
    match refused {
        Some(e) => warned(u, e),
        None => EditUiView {
            panel: PanelView {
                global_rows: option_rows(s, vocab),
                dirty: s.created || s.model.edited,
                ..u.panel
            },
            ..u
        },
    }
}

impl EditUi {
    /// Open the options form, or close it where it is open. It opens only with a session,
    /// and then no key stays selected.
    pub fn edit_global(&mut self, s: &Option<EditSession>, vocab: &Vocabulary)
        ensures
            final(self)@ == options_toggled(old(self)@, *s, *vocab),
    {
        if self.panel.editing_global {
            self.panel.editing_global = false;
            return;
        }
        if let Some(x) = s {
            self.key.phys = String::new();
            assert(self.key.phys@ =~= edit_ui::blank());
            self.panel.global_rows = edit_rows::global_rows_for(
                &vocab.options,
                &x.global_entries(),
            );
            self.panel.editing_global = true;
        }
    }

    /// An option was set or cleared, or that was refused; `s` is the session as it is
    /// after that.
    pub fn commit_global(
        &mut self,
        result: Result<(), String>,
        s: &EditSession,
        vocab: &Vocabulary,
    )
        ensures
            final(self)@ == option_committed(old(self)@, refusal(result), *s, *vocab),
    {
        match result {
            Ok(_) => {
                self.panel.global_rows = edit_rows::global_rows_for(
                    &vocab.options,
                    &s.global_entries(),
                );
                self.panel.dirty = s.dirty();
            },
            Err(e) => self.warn(e.as_str()),
        }
    }
}

// ---------------------------------------------------------------------------
// Leaving a session
// ---------------------------------------------------------------------------

/// What a click that would leave the session does.
#[derive(Debug, Clone, Copy, PartialEq, Eq, Structural)]
pub enum Leave {
    /// An apply is running: only the banner says so.
    Refused,
    /// Unsaved changes: ask first.
    Ask,
    /// Leave the session.
    Exit,
    /// There is no session to leave.
    Free,
}

/// What a click that would leave the session does.
pub open spec fn leaving(session: bool, applying: bool, dirty: bool) -> Leave {
    if !session {
        Leave::Free
    } else if applying {
        Leave::Refused
    } else if dirty {
        Leave::Ask
    } else {
        Leave::Exit
    }
}

/// The forms after a click that would leave the session: one during an apply is refused in
/// the banner, and one with unsaved changes raises the question.
pub open spec fn left_by(u: EditUiView, how: Leave, kbd: int) -> EditUiView {
    match how {
        Leave::Refused => told(u, apply_ctx::not_now()),
        Leave::Ask => EditUiView {
            panel: PanelView { pending_kbd: kbd, discard_prompt: true, ..u.panel },
            ..u
        },
        _ => u,
    }
}

/// What opening the active sheet for editing does.
#[derive(Debug, Clone, Copy, PartialEq, Eq, Structural)]
pub enum Open {
    /// There is no such sheet.
    Nothing,
    /// A board imported from QMK is view-only.
    ViewOnly,
    /// Open a session on its file.
    Session,
}

/// What opening the active sheet for editing does.
pub open spec fn opening(qmk: Option<bool>) -> Open {
    match qmk {
        None => Open::Nothing,
        Some(true) => Open::ViewOnly,
        Some(false) => Open::Session,
    }
}

/// The keyboard to show once the session is discarded, if one was asked for.
pub open spec fn goes_to(u: EditUiView) -> Option<int> {
    if u.panel.pending_kbd >= 0 {
        Some(u.panel.pending_kbd)
    } else {
        None
    }
}

/// The forms after a discard was called off.
pub open spec fn discard_dismissed(u: EditUiView) -> EditUiView {
    EditUiView { panel: PanelView { discard_prompt: false, pending_kbd: -1, ..u.panel }, ..u }
}

/// The forms after the session was opened again on what was kept.
pub open spec fn reopened_on(
    u: EditUiView,
    unreadable: Option<Seq<char>>,
    binding: Option<Seq<char>>,
    has_backups: bool,
) -> EditUiView {
    match unreadable {
        Some(why) => warned(u, "couldn't reload the config after applying: "@ + why),
        None => EditUiView {
            key: if u.key.phys.len() > 0 {
                KeyFormView {
                    current: edit_ui::or_blank(binding),
                    value: edit_ui::or_blank(binding),
                    ..u.key
                }
            } else {
                u.key
            },
            panel: PanelView { dirty: false, has_backups, ..u.panel },
            ..u
        },
    }
}

impl EditUi {
    /// A keyboard was picked: an edit session is for one file, so switching leaves it.
    /// Where it has unsaved changes the switch waits for the answer.
    pub fn pick_keyboard(&mut self, idx: i32, session: bool, applying: bool) -> (r: Leave)
        ensures
            r == leaving(session, applying, old(self)@.panel.dirty),
            final(self)@ == left_by(old(self)@, r, idx as int),
    {
        if !session {
            return Leave::Free;
        }
        if applying {
            self.panel.banner = strings::copy("⚠ apply in progress — KEEP or revert first");
            return Leave::Refused;
        }
        if self.panel.dirty {
            self.panel.pending_kbd = idx;
            self.panel.discard_prompt = true;
            return Leave::Ask;
        }
        Leave::Exit
    }

    /// Edit mode was toggled: with a session it is left, after a question where there
    /// are unsaved changes.
    pub fn toggle_edit(&mut self, session: bool, applying: bool) -> (r: Leave)
        ensures
            r == leaving(session, applying, old(self)@.panel.dirty),
            final(self)@ == left_by(old(self)@, r, -1),
    {
        self.pick_keyboard(-1, session, applying)
    }

    /// Whether a session opens for the active sheet; `qmk` says of the sheet whether it
    /// was imported.
    pub fn open_edit(&mut self, qmk: Option<bool>) -> (r: Open)
        ensures
            r == opening(qmk),
            final(self)@ == (if r is ViewOnly {
                told(old(self)@, "QMK-imported boards are view-only"@)
            } else {
                old(self)@
            }),
    {
        match qmk {
            None => Open::Nothing,
            Some(true) => {
                self.panel.banner = strings::copy("QMK-imported boards are view-only");
                Open::ViewOnly
            },
            Some(false) => Open::Session,
        }
    }

    /// The discard was confirmed: the session is left, and the keyboard that was asked
    /// for, if one was, is to be shown.
    pub fn confirm_discard(&mut self) -> (r: Option<i32>)
        ensures
            (match r {
                Some(k) => Some(k as int),
                None => None,
            }) == goes_to(old(self)@),
            final(self)@ == edit_ui::gone(old(self)@),
    {
        let pending: i32 = self.panel.pending_kbd;
        self.leave();
        if pending >= 0 {
            Some(pending)
        } else {
            None
        }
    }

    /// The discard was called off.
    pub fn cancel_discard(&mut self)
        ensures
            final(self)@ == discard_dismissed(old(self)@),
    {
        self.panel.discard_prompt = false;
        self.panel.pending_kbd = -1;
    }
}

impl EditUi {
    /// The deletion of the config was confirmed: its prompt goes, whatever comes of it.
    pub fn confirm_delete_config(&mut self)
        ensures
            final(self)@ == prompt_gone(old(self)@),
    {
        self.panel.delete_config_prompt = false;
    }

    /// The backups were listed: they are offered where there are any.
    pub fn show_backups(&mut self, any: bool)
        ensures
            final(self)@ == backups_offered(old(self)@, any),
    {
        self.panel.has_backups = any;
    }

    /// The session was opened again on the file that was just kept, so that staleness and
    /// changes count from there. The selected key stays, with its binding in the new
    /// session, and the backups are listed anew. Where the file could not be opened the old
    /// session stays, and the banner says so.
    pub fn reopen_after_kept(
        &mut self,
        reopened: &Result<EditSession, ViewOnly>,
        binding: &Option<String>,
        has_backups: bool,
    )
        ensures
            final(self)@ == reopened_on(
                old(self)@,
                match *reopened {
                    Err(v) => Some(editing::why(v@)),
                    Ok(_) => None,
                },
                text::opt(*binding),
                has_backups,
            ),
    {
        match reopened {
            Ok(_) => {
                if !self.key.phys.as_str().is_empty() {
                    let cur = match binding {
                        Some(b) => strings::copy(b.as_str()),
                        None => String::new(),
                    };
                    assert(cur@ =~= edit_ui::or_blank(text::opt(*binding)));
                    self.key.current = strings::copy(cur.as_str());
                    self.key.value = cur;
                }
                self.panel.dirty = false;
                self.panel.has_backups = has_backups;
            },
            Err(v) => {
                let t = strings::cat(
                    "couldn't reload the config after applying: ",
                    v.describe().as_str(),
                );
                self.warn(t.as_str());
            },
        }
    }
}

/// Unsaved changes are never discarded without a question, and no session is left while
/// an apply is running.
pub proof fn nothing_is_discarded_unasked(session: bool, applying: bool, dirty: bool)
    ensures
        leaving(session, applying, dirty) is Exit ==> session && !applying && !dirty,
        session && applying ==> leaving(session, applying, dirty) is Refused,
        session && !applying && dirty ==> leaving(session, applying, dirty) is Ask,
{
}

// ---------------------------------------------------------------------------
// What the forms promise
// ---------------------------------------------------------------------------

/// A text that is not blank and has no white space at its ends.
pub open spec fn is_tight(s: Seq<char>) -> bool {
    s.len() > 0 && !text::is_white(s[0]) && !text::is_white(s.last())
}

/// What is typed is what is asked for: with a key selected and a hold filled in, the request
/// is for that key in the section that is edited, with the hold as it was typed, and with
/// the tap as it was typed; only a blank tap stands for the key itself, and a key that is to
/// be held only has none. Nothing is asked for without a key or without a hold.
pub proof fn a_tap_hold_is_asked_for_as_typed(u: EditUiView, hold_only: bool)
    ensures
        ({
            let r = tap_hold_asked(u, hold_only);
            &&& r is None <==> u.key.phys.len() == 0 || text::trim(u.tap_hold.hold).len() == 0
            &&& r is Some ==> {
                &&& r->0.layer == u.layers.layer
                &&& r->0.key == u.key.phys
                &&& r->0.target == text::trim(u.tap_hold.hold)
                &&& hold_only ==> r->0.tap is None
                &&& !hold_only && text::trim(u.tap_hold.tap).len() > 0 ==> r->0.tap == Some(
                    text::trim(u.tap_hold.tap),
                )
                &&& !hold_only && text::trim(u.tap_hold.tap).len() == 0 ==> r->0.tap == Some(
                    u.key.phys,
                )
                &&& u.tap_hold.feel == "fast"@ ==> r->0.feel == Some(Behavior::Responsive)
                &&& u.tap_hold.feel == "safe"@ ==> r->0.feel == Some(Behavior::TypingSafe)
                &&& u.tap_hold.feel.len() == 0 ==> r->0.feel is None
                &&& is_tight(u.tap_hold.hold) ==> r->0.target == u.tap_hold.hold
                &&& !hold_only && is_tight(u.tap_hold.tap) ==> r->0.tap == Some(u.tap_hold.tap)
            }
        }),
{
    reveal_strlit("fast");
    reveal_strlit("safe");
    if "fast"@ == "safe"@ {
        assert("fast"@[0] == "safe"@[0]);
    }
    if is_tight(u.tap_hold.hold) {
        text::trim_of_tight(u.tap_hold.hold);
    }
    if is_tight(u.tap_hold.tap) {
        text::trim_of_tight(u.tap_hold.tap);
    }
}

/// Applying a tap/hold form that was not touched asks for the tap/hold that the key has:
/// its target, its tap and its feel.
pub proof fn an_untouched_tap_hold_is_kept(
    u: EditUiView,
    f: KeyFactsView,
    phys: Seq<char>,
    words: Seq<ModWordView>,
)
    requires
        u.panel.board_mode != "chord"@,
        phys.len() > 0,
        phys != u.key.phys,
        f.tap_hold is Some,
        is_tight(f.tap_hold->0.target),
        f.tap_hold->0.tap is Some ==> is_tight(f.tap_hold->0.tap->0),
    ensures
        ({
            let t = f.tap_hold->0;
            let r = tap_hold_asked(clicked(u, phys, Some(f), words), t.tap is None);
            &&& r is Some
            &&& r->0.layer == u.layers.layer
            &&& r->0.key == phys
            &&& r->0.target == t.target
            &&& r->0.tap == t.tap
            &&& r->0.feel == t.behavior
        }),
{
    edit_ui::feel_tokens_are_read_back(f.tap_hold->0.behavior);
    let v = clicked(u, phys, Some(f), words);
    a_tap_hold_is_asked_for_as_typed(v, f.tap_hold->0.tap is None);
}

/// A value is bound where the selection is: to the selected key in the section that is
/// edited, as it was typed but for white space around it. A blank value, or no key, asks for
/// nothing; a label may be blank, which clears it; and a key is made transparent, or its
/// label cleared, only where one is selected.
pub proof fn requests_go_to_the_selection(u: EditUiView, typed: Seq<char>)
    ensures
        ({
            let b = binding_asked(u, typed);
            let l = label_asked(u, typed);
            &&& b is Some <==> u.key.phys.len() > 0 && text::trim(typed).len() > 0
            &&& b is Some ==> b->0.layer == u.layers.layer && b->0.key == u.key.phys && b->0.val
                == text::trim(typed)
            &&& is_tight(typed) && b is Some ==> b->0.val == typed
            &&& l is Some <==> u.key.phys.len() > 0
            &&& l is Some ==> l->0.layer == u.layers.layer && l->0.key == u.key.phys && l->0.val
                == text::trim(typed)
            &&& selected(u) is Some <==> u.key.phys.len() > 0
            &&& selected(u) is Some ==> selected(u)->0.layer == u.layers.layer && selected(
                u,
            )->0.key == u.key.phys
        }),
{
    if is_tight(typed) {
        text::trim_of_tight(typed);
    }
}

/// A click selects the key and shows what it is bound to, with the editor that fits: what
/// is bound next goes to it, and an armed capture or an open options form is over. A second
/// click on it deselects, so that nothing can be bound. While a chord is built a click only
/// toggles a member; and without a session nothing changes.
pub proof fn a_click_selects_the_key(
    u: EditUiView,
    phys: Seq<char>,
    facts: Option<KeyFactsView>,
    words: Seq<ModWordView>,
)
    ensures
        ({
            let v = clicked(u, phys, facts, words);
            let building = u.panel.board_mode == "chord"@;
            &&& building ==> v.key == u.key && v.chord.keys == toggled(u.chord.keys, phys)
                && v.tap_hold == u.tap_hold && v.mac == u.mac && v.panel == u.panel
            &&& !building && phys == u.key.phys ==> selected(v) is None && !v.key.armed
                && !v.key.has_label && v.key.value == u.key.value && v.panel == u.panel
            &&& !building && phys != u.key.phys && facts is None ==> v == u
            &&& !building && phys != u.key.phys && facts is Some ==> {
                let f = facts->0;
                &&& v.key.phys == phys
                &&& !v.key.armed
                &&& !v.panel.editing_global
                &&& f.binding is Some ==> v.key.value == f.binding->0 && v.key.current
                    == f.binding->0
                &&& f.binding is None ==> v.key.value.len() == 0 && v.key.current.len() == 0
                &&& f.label is Some ==> v.key.label == f.label->0 && (v.key.has_label
                    <==> f.label->0.len() > 0)
                &&& f.label is None ==> v.key.label.len() == 0 && !v.key.has_label
                &&& v.key.is_macro == (f.mac is Some)
                &&& v.key.is_tap_hold == (f.tap_hold is Some)
                &&& f.mac is Some ==> v.key.mode == "macro"@
                &&& f.mac is None && f.tap_hold is Some ==> v.key.mode == "taphold"@
                &&& f.mac is None && f.tap_hold is None ==> v.key.mode == "simple"@
                &&& v.chord == u.chord
            }
            &&& v.layers == u.layers && v.picker == u.picker && v.panel.dirty == u.panel.dirty
        }),
{
}

/// Picking a section turns the edits to it: what is bound next lands there, the selected key
/// stays selected and shows what it is bound to there, and prompts about the section before
/// are gone. While chords are built its chords are listed and the builder starts empty.
pub proof fn a_picked_section_is_edited(
    u: EditUiView,
    name: Seq<char>,
    chords: Option<Vec<Setting>>,
    facts: Option<KeyFactsView>,
    words: Seq<ModWordView>,
)
    ensures
        ({
            let v = layer_picked(u, name, chords, facts, words);
            &&& v.layers.layer == name
            &&& v.layers.layers == u.layers.layers && v.layers.holds == u.layers.holds
            &&& v.layers.delete_prompt.len() == 0 && v.layers.rename_target.len() == 0
            &&& v.layers.can_rename <==> name.len() > 0 && name != "main"@ && !name.contains('+')
            &&& v.key.phys == u.key.phys
            &&& !v.panel.editing_global
            &&& u.key.phys.len() > 0 && facts is Some && facts->0.binding is Some ==> v.key.value
                == facts->0.binding->0
            &&& u.key.phys.len() > 0 && facts is Some && facts->0.binding is None
                ==> v.key.value.len() == 0
            &&& u.panel.board_mode != "chord"@ ==> v.chord == u.chord
            &&& u.panel.board_mode == "chord"@ ==> v.chord.keys.len() == 0
                && v.chord.orig.len() == 0 && v.chord.action.len() == 0
            &&& u.panel.board_mode == "chord"@ && chords is Some ==> v.chord.rows
                == edit_rows::chord_rows_of(text::views(chords->0@))
            &&& v.panel.dirty == u.panel.dirty && v.panel.board_mode == u.panel.board_mode
        }),
{
}

/// What was refused changes nothing but the banner, which says why.
pub open spec fn only_told(u: EditUiView, v: EditUiView, why: Seq<char>) -> bool {
    &&& v.key == u.key
    &&& v.tap_hold == u.tap_hold
    &&& v.action == u.action
    &&& v.chord == u.chord
    &&& v.mac == u.mac
    &&& v.layers == u.layers
    &&& v.picker == u.picker
    &&& v.panel.banner == "\u{26a0} "@ + why
    &&& v.panel == (PanelView { banner: v.panel.banner, ..u.panel })
}

/// The section is in focus with nothing selected: what the session now has is listed, the
/// builder is empty, and the warnings and the state of the edits are the session's.
pub open spec fn in_focus(v: EditUiView, layer: Seq<char>, s: EditSession, vocab: Vocabulary) -> bool {
    &&& v.layers.layer == layer
    &&& v.layers.layers == editing::editable(text::views(s.model.sections@))
    &&& v.layers.holds == edit_rows::holdable(v.layers.layers, text::texts(vocab.modifiers@))
    &&& v.layers.can_rename <==> layer.len() > 0 && layer != "main"@ && !layer.contains('+')
    &&& v.chord.rows == edit_ui::layer_rows(s, layer)
    &&& v.chord.keys.len() == 0 && v.chord.orig.len() == 0 && v.chord.action.len() == 0
    &&& selected(v) is None
    &&& v.key.mode == "simple"@
    &&& v.key.value.len() == 0 && v.key.current.len() == 0
    &&& !v.key.armed
    &&& v.panel.dirty == (s.created || s.model.edited)
    &&& v.panel.warnings == warnings_of(s)
}

/// The forms follow the layers: a layer that was created or renamed is the one in focus, and
/// its field closes; after a delete the first section left is, and the prompt is gone. Where
/// it was refused only the banner says why, and a field stays open to be corrected; the
/// delete prompt goes in any case.
pub proof fn the_forms_follow_the_layers(
    u: EditUiView,
    done: Result<Seq<char>, Seq<char>>,
    refused: Option<Seq<char>>,
    s: EditSession,
    vocab: Vocabulary,
)
    ensures
        ({
            let made = layer_created(u, done, s, vocab);
            let named = layer_renamed(u, done, s, vocab);
            let cut = layer_deleted(u, refused, s, vocab);
            let left = editing::editable(text::views(s.model.sections@));
            &&& done is Ok ==> in_focus(made, done->Ok_0, s, vocab) && !made.layers.new_open
                && made.layers.new_name.len() == 0
            &&& done is Err ==> only_told(u, made, done->Err_0)
            &&& done is Ok ==> in_focus(named, done->Ok_0, s, vocab)
                && named.layers.rename_target.len() == 0 && named.layers.rename_name.len() == 0
            &&& done is Err ==> only_told(u, named, done->Err_0)
            &&& refused is None ==> in_focus(
                cut,
                if left.len() > 0 {
                    left[0]
                } else {
                    Seq::empty()
                },
                s,
                vocab,
            )
            &&& refused is Some ==> cut.panel.banner == "\u{26a0} "@ + refused->0 && cut.key
                == u.key && cut.chord == u.chord && cut.layers.layer == u.layers.layer
            &&& delete_asked(cut) is None
        }),
{
    assert(edit_ui::blank() =~= Seq::<char>::empty());
}

/// A layer is deleted only once it was asked for: the question names it, and what the
/// confirmation deletes is the layer that the question was about; a dismissed question
/// deletes nothing.
pub proof fn a_delete_is_of_what_was_asked(u: EditUiView, name: Seq<char>, s: EditSession)
    ensures
        name.len() > 0 ==> delete_asked(delete_raised(u, name, s)) == Some(name),
        delete_asked(undeleted(u)) is None,
        delete_raised(u, name, s).layers.layer == u.layers.layer,
        delete_raised(u, name, s).key == u.key,
        delete_raised(u, name, s).layers.delete_detail == edit_rows::delete_question(
            name,
            editing::sites(editing::pointing_at(text::views(s.model.uses@), name)),
        ),
        undeleted(u).layers.layer == u.layers.layer,
        undeleted(u).key == u.key,
{
}

/// What was bound is shown: the value and the current binding are what was bound, the forms
/// follow what the key now is, the warnings and the state of the edits are the session's,
/// and no capture stays armed. The selection stays. What was refused only shows in the
/// banner.
pub proof fn a_commit_is_shown(
    u: EditUiView,
    refused: Option<Seq<char>>,
    f: KeyFactsView,
    phys: Seq<char>,
    value: Seq<char>,
    words: Seq<ModWordView>,
    label: Option<Seq<char>>,
    dirty: bool,
    s: EditSession,
)
    ensures
        ({
            let b = binding_committed(u, refused, f, phys, value, words, s);
            let m = macro_committed(u, refused, f, value, words, s);
            let l = label_committed(u, refused, label, dirty);
            &&& refused is Some ==> only_told(u, b, refused->0) && only_told(u, m, refused->0)
                && only_told(u, l, refused->0)
            &&& refused is None ==> {
                &&& b.key.value == value && b.key.current == value && !b.key.armed
                &&& b.key.is_macro == (f.mac is Some) && b.key.is_tap_hold == (f.tap_hold is Some)
                &&& b.tap_hold == edit_ui::slots(f.tap_hold, f.binding, phys)
                &&& b.mac == edit_ui::macro_seeded(u.mac, f.mac, words)
                &&& m.key.value == value && m.key.current == value && !m.key.armed
                &&& m.key.is_macro == (f.mac is Some)
                &&& m.mac == b.mac && m.tap_hold == u.tap_hold
                &&& b.panel.warnings == warnings_of(s) && m.panel.warnings == warnings_of(s)
                &&& b.panel.dirty == (s.created || s.model.edited)
                &&& m.panel.dirty == (s.created || s.model.edited)
                &&& l.panel.dirty == dirty
                &&& label is Some ==> l.key.label == label->0 && (l.key.has_label
                    <==> label->0.len() > 0)
                &&& label is None ==> l.key.label.len() == 0 && !l.key.has_label
                &&& l.key.value == u.key.value
            }
            &&& b.key.phys == u.key.phys && m.key.phys == u.key.phys && l.key.phys == u.key.phys
            &&& b.layers == u.layers && m.layers == u.layers && l.layers == u.layers
            &&& b.chord == u.chord && m.chord == u.chord && l.chord == u.chord
        }),
{
}

/// The steps of a macro are what was added, in the order in which it was, and each is shown
/// by a row: a text as it was typed, a pause of a whole number of milliseconds under 1024,
/// and a chord of the key with the modifiers that are on. What was taken in leaves its
/// field; what is missing or out of range adds nothing, and the banner says so. Removing
/// takes one step out, and a place without a step changes nothing.
pub proof fn a_macro_is_built_step_by_step(
    u: EditUiView,
    is_key: bool,
    idx: int,
    words: Seq<ModWordView>,
)
    ensures
        ({
            let typed = u.mac.text_input;
            let t = text_step_added(u, words);
            let n = text::parse_number(text::trim(u.mac.delay_input), 10, 65535);
            let p = pause_step_added(u, words);
            let key = text::trim(u.mac.chord_key);
            let c = chord_step_added(u, is_key, words);
            let r = step_removed(u, idx, words);
            &&& typed.len() > 0 ==> t.mac.steps == u.mac.steps.push(MacroTokenView::Text(typed))
                && t.mac.text_input.len() == 0
            &&& typed.len() == 0 ==> t == u
            &&& n is Some && n->0 < 1024 ==> p.mac.steps == u.mac.steps.push(
                MacroTokenView::Delay(n->0),
            ) && p.mac.delay_input.len() == 0 && p.panel.banner.len() == 0
            &&& n is None || n->0 >= 1024 ==> p.mac == u.mac && p.panel.banner.len() > 0
            &&& key.len() > 0 && is_key ==> c.mac.steps == u.mac.steps.push(
                MacroTokenView::Chord { mods: letters_on(u.mac), keys: seq![key] },
            ) && c.mac.chord_key.len() == 0 && letters_on(c.mac).len() == 0
                && c.panel.banner.len() == 0
            &&& key.len() == 0 || !is_key ==> c.mac == u.mac && c.panel.banner.len() > 0
            &&& 0 <= idx < u.mac.steps.len() ==> r.mac.steps == u.mac.steps.remove(idx)
            &&& !(0 <= idx < u.mac.steps.len()) ==> r.mac.steps == u.mac.steps
            &&& typed.len() > 0 ==> t.mac.rows == edit_rows::rows_of(words, t.mac.steps)
            &&& r.mac.rows == edit_rows::rows_of(words, r.mac.steps)
            &&& t.key == u.key && p.key == u.key && c.key == u.key && r.key == u.key
            &&& t.panel.dirty == u.panel.dirty && p.panel.dirty == u.panel.dirty
                && c.panel.dirty == u.panel.dirty && r.panel == u.panel
        }),
{
    reveal_strlit("\u{26a0} ");
}

/// The modifiers of a chord step are those that are on, each once.
pub proof fn the_modifiers_are_those_on(m: MacroFormView)
    ensures
        letters_on(m).contains('C') <==> m.chord_c,
        letters_on(m).contains('M') <==> m.chord_m,
        letters_on(m).contains('A') <==> m.chord_a,
        letters_on(m).contains('S') <==> m.chord_s,
        letters_on(m).contains('G') <==> m.chord_g,
        forall|i: int|
            0 <= i < letters_on(m).len() ==> {
                let c = #[trigger] letters_on(m)[i];
                c == 'C' || c == 'M' || c == 'A' || c == 'S' || c == 'G'
            },
        forall|i: int, j: int|
            0 <= i < j < letters_on(m).len() ==> #[trigger] letters_on(m)[i]
                != #[trigger] letters_on(m)[j],
{
    let l = letters_on(m);
    let c = if m.chord_c {
        1int
    } else {
        0
    };
    let k = c + if m.chord_m {
        1int
    } else {
        0
    };
    let a = k + if m.chord_a {
        1int
    } else {
        0
    };
    let s = a + if m.chord_s {
        1int
    } else {
        0
    };
    assert(m.chord_c ==> l[0] == 'C');
    assert(m.chord_m ==> l[c] == 'M');
    assert(m.chord_a ==> l[k] == 'A');
    assert(m.chord_s ==> l[a] == 'S');
    assert(m.chord_g ==> l[s] == 'G');
    assert(l.len() == s + if m.chord_g {
        1int
    } else {
        0
    });
}

/// A macro is asked for as it was put together: with its steps, and with the two times where
/// it is to repeat. Without a step, or with a time that is no whole number, what is missing
/// is said. Opening a key's macro and applying it untouched asks for that macro.
pub proof fn a_macro_is_asked_for_as_built(
    u: EditUiView,
    m: MacroFormView,
    x: edit_ui::MacroView,
    words: Seq<ModWordView>,
)
    ensures
        ({
            let t = text::parse_number(text::trim(u.mac.repeat_timeout), 10, u32::MAX as nat);
            let n = text::parse_number(text::trim(u.mac.repeat_count), 10, u32::MAX as nat);
            &&& u.mac.steps.len() == 0 ==> macro_asked(u) is Err
            &&& u.mac.steps.len() > 0 && !u.mac.repeat_on ==> macro_asked(u)
                == Ok::<Option<(nat, nat)>, Seq<char>>(None)
            &&& u.mac.steps.len() > 0 && u.mac.repeat_on && t is Some && n is Some ==> macro_asked(
                u,
            ) == Ok::<Option<(nat, nat)>, Seq<char>>(Some((t->0, n->0)))
            &&& u.mac.steps.len() > 0 && u.mac.repeat_on && (t is None || n is None)
                ==> macro_asked(u) is Err
        }),
        u.mac == edit_ui::macro_seeded(m, Some(x), words) ==> u.mac.steps == x.steps,
        u.mac == edit_ui::macro_seeded(m, Some(x), words) && x.steps.len() > 0 && (x.repeat is Some
            ==> (x.repeat->0).0 <= u32::MAX && (x.repeat->0).1 <= u32::MAX) ==> macro_asked(u) == Ok::<
            Option<(nat, nat)>,
            Seq<char>,
        >(x.repeat),
{
    if u.mac == edit_ui::macro_seeded(m, Some(x), words) && x.repeat is Some && (x.repeat->0).0
        <= u32::MAX && (x.repeat->0).1 <= u32::MAX {
        numeral_is_tight((x.repeat->0).0);
        numeral_is_tight((x.repeat->0).1);
        text::decimal_parses((x.repeat->0).0, u32::MAX as nat);
        text::decimal_parses((x.repeat->0).1, u32::MAX as nat);
    }
}

proof fn numeral_is_tight(n: nat)
    ensures
        text::trim(text::decimal(n)) == text::decimal(n),
{
    let d = text::decimal(n);
    text::decimal_reads_back(n);
    assert(text::digit_value(d[0], 10) is Some);
    assert(text::digit_value(d[d.len() - 1], 10) is Some);
    text::trim_of_tight(d);
}

/// A picked key fills the field that the picker was opened for, and no other; as a step of
/// a macro it is added at the end. Nothing is bound by it, and the picker is closed.
pub proof fn a_pick_fills_its_field(u: EditUiView, name: Seq<char>, words: Seq<ModWordView>)
    ensures
        ({
            let v = picked(u, name, words);
            let to = u.picker.target;
            let field = to == "tap"@ || to == "chord_action"@ || to == "macro_token"@ || to
                == "macro_chord_key"@;
            &&& v.tap_hold.tap == (if to == "tap"@ {
                name
            } else {
                u.tap_hold.tap
            })
            &&& v.chord.action == (if to == "chord_action"@ {
                name
            } else {
                u.chord.action
            })
            &&& v.mac.steps == (if to == "macro_token"@ {
                u.mac.steps.push(MacroTokenView::Key(name))
            } else {
                u.mac.steps
            })
            &&& v.mac.chord_key == (if to == "macro_chord_key"@ {
                name
            } else {
                u.mac.chord_key
            })
            &&& v.key.value == (if !field {
                name
            } else {
                u.key.value
            })
            &&& v.key.phys == u.key.phys && v.key.current == u.key.current
            &&& v.tap_hold.hold == u.tap_hold.hold && v.chord.keys == u.chord.keys
            &&& v.panel == u.panel && v.layers == u.layers
            &&& !v.picker.open && v.picker.query.len() == 0
        }),
{
    reveal_strlit("tap");
    reveal_strlit("chord_action");
    reveal_strlit("macro_token");
    reveal_strlit("macro_chord_key");
    assert("tap"@.len() == 3 && "chord_action"@.len() == 12 && "macro_token"@.len() == 11
        && "macro_chord_key"@.len() == 15);
}

/// The picker opens for its field with an empty query, and takes the capture over; a query
/// changes what is listed and nothing else. What is listed is the best of the keys, and the
/// rest is counted.
pub proof fn the_picker_lists_the_keys(
    u: EditUiView,
    target: Seq<char>,
    keys: Seq<Seq<char>>,
    query: Seq<char>,
)
    ensures
        ({
            let o = picker_opened(u, target, keys);
            let f = picker_filtered(u, keys, query);
            let all = picker::ranked_by(keys, picker::query_of(query));
            &&& o.picker.open && o.picker.target == target && o.picker.query.len() == 0
            &&& !o.key.armed && o.key.phys == u.key.phys && o.key.value == u.key.value
            &&& o.picker.results == picker_filtered(u, keys, ""@).picker.results
            &&& f.picker.open == u.picker.open && f.picker.target == u.picker.target
                && f.picker.query == u.picker.query && f.key == u.key
            &&& f.picker.results.len() + f.picker.truncated == all.len()
            &&& f.picker.results.len() <= 80
            &&& f.picker.truncated > 0 ==> f.picker.results.len() == 80
            &&& forall|i: int|
                0 <= i < f.picker.results.len() ==> #[trigger] f.picker.results[i] == all[i]
        }),
{
}

/// Switching between one key and a chord drops what the other had selected: nothing is
/// selected, and the builder is empty. The chords are listed where a chord is to be built.
pub proof fn switching_modes_drops_the_selection(
    u: EditUiView,
    mode: Seq<char>,
    chords: Option<Vec<Setting>>,
)
    ensures
        ({
            let v = board_switched(u, mode, chords);
            &&& v.panel.board_mode == mode
            &&& selected(v) is None
            &&& v.chord.keys.len() == 0 && v.chord.orig.len() == 0 && v.chord.action.len() == 0
            &&& mode == "chord"@ && chords is Some ==> v.chord.rows == edit_rows::chord_rows_of(
                text::views(chords->0@),
            )
            &&& mode != "chord"@ ==> v.chord.rows == u.chord.rows
            &&& v.layers == u.layers && v.panel.dirty == u.panel.dirty
        }),
{
}

proof fn action_of_is_first(chords: Seq<SettingView>, id: Seq<char>, i: int)
    requires
        0 <= i < chords.len(),
        chords[i].id == id,
        forall|j: int| 0 <= j < i ==> (#[trigger] chords[j]).id != id,
    ensures
        action_of(chords, id) == Some(chords[i].val),
    decreases chords.len(),
{
    if i > 0 {
        assert(chords[0].id != id);
        assert forall|j: int| 0 <= j < i - 1 implies (#[trigger] chords.skip(1)[j]).id != id by {
            assert(chords.skip(1)[j] == chords[j + 1]);
        }
        assert(chords.skip(1)[i - 1] == chords[i]);
        action_of_is_first(chords.skip(1), id, i - 1);
    }
}

/// Editing a chord puts it into the builder: its members, what it was, and its action, that
/// of the first chord of the layer with the same keys. Setting it with other keys leaves the
/// old one to be removed, with the same keys it does not; a chord that is built anew leaves
/// none.
pub proof fn an_edited_chord_is_in_the_builder(
    u: EditUiView,
    chord: Seq<char>,
    id: Seq<char>,
    chords: Seq<SettingView>,
    i: int,
    after: Seq<char>,
)
    requires
        0 <= i < chords.len(),
        chords[i].id == id,
        forall|j: int| 0 <= j < i ==> (#[trigger] chords[j]).id != id,
    ensures
        ({
            let v = chord_edited(u, chord, id, Some(chords));
            &&& v.chord.keys == edit_rows::members_of(chord)
            &&& v.chord.orig == chord
            &&& v.chord.action == chords[i].val
            &&& v.key == u.key && v.panel == u.panel
            &&& chord.len() > 0 ==> (leaves_old_chord(v.chord.orig, id, after) <==> after != id)
        }),
        !leaves_old_chord(edit_ui::builder_cleared(u.chord).orig, id, after),
{
    action_of_is_first(chords, id, i);
}

/// A chord that was set is listed and the builder is empty for the next; one that was
/// removed is listed no more and the builder stays. What was refused only shows in the
/// banner.
pub proof fn the_chords_shown_are_the_sessions(
    u: EditUiView,
    refused: Option<Seq<char>>,
    s: EditSession,
)
    ensures
        ({
            let v = chord_committed(u, refused, s);
            let w = chord_dropped(u, refused, s);
            &&& refused is Some ==> only_told(u, v, refused->0) && only_told(u, w, refused->0)
            &&& refused is None ==> {
                let rows = edit_rows::chord_rows_of(
                    editing::chords_in(text::views(s.model.sections@), u.layers.layer),
                );
                &&& v.chord.rows == rows && w.chord.rows == rows
                &&& v.chord.keys.len() == 0 && v.chord.orig.len() == 0 && v.chord.action.len() == 0
                &&& w.chord.keys == u.chord.keys && w.chord.orig == u.chord.orig && w.chord.action
                    == u.chord.action
                &&& v.panel.dirty == (s.created || s.model.edited)
                &&& w.panel.dirty == (s.created || s.model.edited)
                &&& v.panel.warnings == warnings_of(s) && w.panel.warnings == warnings_of(s)
            }
            &&& v.key == u.key && w.key == u.key && v.layers == u.layers && w.layers == u.layers
        }),
{
}

/// The options form opens with the session's options and nothing selected, closes again, and
/// needs a session; an option that was set or cleared is shown.
pub proof fn the_options_shown_are_the_sessions(
    u: EditUiView,
    s: EditSession,
    vocab: Vocabulary,
    refused: Option<Seq<char>>,
)
    ensures
        ({
            let o = options_toggled(u, Some(s), vocab);
            let c = option_committed(u, refused, s, vocab);
            let rows = edit_rows::global_rows_of(
                text::views(vocab.options@),
                editing::options_of(s.model.global),
            );
            &&& o.panel.editing_global == !u.panel.editing_global
            &&& !u.panel.editing_global ==> selected(o) is None && o.panel.global_rows == rows
            &&& u.panel.editing_global ==> o.key == u.key
            &&& !u.panel.editing_global ==> options_toggled(u, None, vocab) == u
            &&& refused is Some ==> only_told(u, c, refused->0)
            &&& refused is None ==> c.panel.global_rows == rows && c.panel.dirty == (s.created
                || s.model.edited)
            &&& c.key == u.key && o.chord == u.chord && o.layers == u.layers
        }),
{
}

/// A click that would leave the session goes through at once exactly where nothing is lost:
/// without a session, or with one that has no changes and no apply running. Where it asks,
/// the answer decides: a confirmed discard goes to the keyboard that was asked for and
/// leaves the session, a dismissed one forgets it and keeps all that was staged.
pub proof fn leaving_does_what_was_asked(
    u: EditUiView,
    session: bool,
    applying: bool,
    kbd: int,
)
    ensures
        ({
            let how = leaving(session, applying, u.panel.dirty);
            let v = left_by(u, how, kbd);
            &&& how is Free <==> !session
            &&& how is Exit <==> session && !applying && !u.panel.dirty
            &&& how is Free || how is Exit ==> v == u
            &&& how is Refused ==> v.panel.banner == apply_ctx::not_now() && v.panel.discard_prompt
                == u.panel.discard_prompt && v.panel.pending_kbd == u.panel.pending_kbd
            &&& how is Ask ==> v.panel.discard_prompt
            &&& how is Ask && kbd >= 0 ==> goes_to(v) == Some(kbd)
            &&& how is Ask && kbd < 0 ==> goes_to(v) is None
            &&& v.key == u.key && v.chord == u.chord && v.layers == u.layers && v.panel.dirty
                == u.panel.dirty && v.panel.on == u.panel.on
            &&& goes_to(discard_dismissed(v)) is None
            &&& !discard_dismissed(v).panel.discard_prompt
            &&& discard_dismissed(v).panel.dirty == u.panel.dirty
            &&& discard_dismissed(v).key == u.key
            &&& !edit_ui::gone(v).panel.on && goes_to(edit_ui::gone(v)) is None
        }),
{
}

/// After a kept apply nothing counts as changed, the selection stays, and it shows what it
/// is bound to on disk; the backups are offered where there are any. A file that cannot be
/// read again leaves the session as it was and says why.
pub proof fn a_kept_session_starts_clean(
    u: EditUiView,
    unreadable: Option<Seq<char>>,
    binding: Option<Seq<char>>,
    has_backups: bool,
)
    ensures
        ({
            let v = reopened_on(u, unreadable, binding, has_backups);
            &&& unreadable is Some ==> only_told(
                u,
                v,
                "couldn't reload the config after applying: "@ + unreadable->0,
            )
            &&& unreadable is None ==> {
                &&& !v.panel.dirty
                &&& v.panel.has_backups == has_backups
                &&& u.key.phys.len() > 0 && binding is Some ==> v.key.value == binding->0
                    && v.key.current == binding->0
                &&& u.key.phys.len() > 0 && binding is None ==> v.key.value.len() == 0
                    && v.key.current.len() == 0
                &&& u.key.phys.len() == 0 ==> v.key == u.key
            }
            &&& v.key.phys == u.key.phys && v.layers == u.layers && v.chord == u.chord
        }),
{
}

/// A sheet opens for editing exactly where there is one and it was not imported.
pub proof fn only_configs_are_edited(qmk: Option<bool>)
    ensures
        opening(qmk) is Session <==> qmk == Some(false),
        opening(qmk) is ViewOnly <==> qmk == Some(true),
        opening(qmk) is Nothing <==> qmk is None,
{
}

/// The small switches do what they say and nothing else: the capture is armed or not, the
/// editor is the one chosen, the prompt goes, the backups are offered where there are any,
/// and a reason is shown behind its sign.
pub proof fn a_switch_changes_one_thing(
    u: EditUiView,
    on: bool,
    mode: Seq<char>,
    why: Seq<char>,
)
    ensures
        ({
            let c = capture_set(u, on);
            let e = editor_chosen(u, mode);
            let p = prompt_gone(u);
            let b = backups_offered(u, on);
            let w = warned(u, why);
            &&& c.key.armed == on && c.key.phys == u.key.phys && c.key.mode == u.key.mode
            &&& c.panel == u.panel && c.mac == u.mac && c.tap_hold == u.tap_hold && c.layers
                == u.layers
            &&& e.key.mode == mode && e.key.phys == u.key.phys && e.key.armed == u.key.armed
            &&& e.panel == u.panel && e.mac == u.mac && e.tap_hold == u.tap_hold
            &&& !p.panel.delete_config_prompt && p.panel.on == u.panel.on && p.panel.dirty
                == u.panel.dirty && p.key == u.key
            &&& b.panel.has_backups == on && b.panel.on == u.panel.on && b.panel.dirty
                == u.panel.dirty && b.panel.backups_open == u.panel.backups_open && b.key
                == u.key
            &&& only_told(u, w, why)
        }),
{
}

/// A step moves by as many places as it is told, the one that stood there takes its place,
/// and every other stays; a move beyond the ends changes nothing. The rows follow.
pub proof fn a_step_moves_where_it_is_told(
    u: EditUiView,
    idx: int,
    delta: int,
    words: Seq<ModWordView>,
    k: int,
)
    ensures
        ({
            let v = step_moved(u, idx, delta, words);
            let n = u.mac.steps.len() as int;
            let to = idx + delta;
            &&& v.mac.steps.len() == n
            &&& 0 <= idx < n && 0 <= to < n ==> v.mac.steps[to] == u.mac.steps[idx]
                && v.mac.steps[idx] == u.mac.steps[to]
            &&& 0 <= k < n && k != idx && k != to ==> v.mac.steps[k] == u.mac.steps[k]
            &&& !(0 <= idx < n && 0 <= to < n) ==> v.mac.steps == u.mac.steps
            &&& v.mac.rows == edit_rows::rows_of(words, v.mac.steps)
            &&& v.key == u.key && v.panel == u.panel
        }),
{
}

} // verus!
