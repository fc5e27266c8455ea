//! Edit mode's forms: what the panels hold, and how a click, a pick or a finished edit
//! changes them.
//!
//! The session decides what an edit comes to; here the forms around it are filled,
//! cleared and kept in step with it.

use crate::edit_rows;
use crate::edit_rows::ChordRow;
use crate::edit_rows::ChordRowView;
use crate::edit_rows::GlobalOption;
use crate::edit_rows::GlobalRow;
use crate::edit_rows::GlobalRowView;
use crate::edit_rows::MacroRow;
use crate::edit_rows::MacroRowView;
use crate::edit_rows::MacroToken;
use crate::edit_rows::MacroTokenView;
use crate::edit_rows::ModWord;
use crate::edit_rows::ModWordView;
use crate::editing;
use crate::editing::EditSession;
use crate::editing::Setting;
use crate::editing::SettingView;
use crate::strings;
use crate::text;
use vstd::prelude::*;

verus! {

// ---------------------------------------------------------------------------
// The forms
// ---------------------------------------------------------------------------

/// The selected key and its editor.
#[derive(Debug)]
pub struct KeyForm {
    /// The physical key; empty where none is selected.
    pub phys: String,
    /// Its binding.
    pub current: String,
    /// The value field.
    pub value: String,
    pub label: String,
    pub has_label: bool,
    /// The editor: `simple`, `taphold` or `macro`.
    pub mode: String,
    pub is_macro: bool,
    pub is_tap_hold: bool,
    pub is_layer_action: bool,
    /// The next key pressed becomes the value.
    pub armed: bool,
}

pub struct KeyFormView {
    pub phys: Seq<char>,
    pub current: Seq<char>,
    pub value: Seq<char>,
    pub label: Seq<char>,
    pub has_label: bool,
    pub mode: Seq<char>,
    pub is_macro: bool,
    pub is_tap_hold: bool,
    pub is_layer_action: bool,
    pub armed: bool,
}

impl View for KeyForm {
    type V = KeyFormView;

    open spec fn view(&self) -> KeyFormView {
        KeyFormView {
            phys: self.phys@,
            current: self.current@,
            value: self.value@,
            label: self.label@,
            has_label: self.has_label,
            mode: self.mode@,
            is_macro: self.is_macro,
            is_tap_hold: self.is_tap_hold,
            is_layer_action: self.is_layer_action,
            armed: self.armed,
        }
    }
}

/// The tap/hold slots.
#[derive(Debug)]
pub struct TapHoldForm {
    pub feel: String,
    pub hold: String,
    pub tap: String,
}

pub struct TapHoldFormView {
    pub feel: Seq<char>,
    pub hold: Seq<char>,
    pub tap: Seq<char>,
}

impl View for TapHoldForm {
    type V = TapHoldFormView;

    open spec fn view(&self) -> TapHoldFormView {
        TapHoldFormView { feel: self.feel@, hold: self.hold@, tap: self.tap@ }
    }
}

/// The layer-action picker.
#[derive(Debug)]
pub struct ActionForm {
    pub kind: String,
    pub target: String,
}

pub struct ActionFormView {
    pub kind: Seq<char>,
    pub target: Seq<char>,
}

impl View for ActionForm {
    type V = ActionFormView;

    open spec fn view(&self) -> ActionFormView {
        ActionFormView { kind: self.kind@, target: self.target@ }
    }
}

/// The chord builder and the layer's chords.
#[derive(Debug)]
pub struct ChordForm {
    /// The members picked so far.
    pub keys: Vec<String>,
    pub action: String,
    /// The chord that is being edited; empty for a new one.
    pub orig: String,
    pub layer_target: String,
    pub layer_kind: String,
    pub rows: Vec<ChordRow>,
}

pub struct ChordFormView {
    pub keys: Seq<Seq<char>>,
    pub action: Seq<char>,
    pub orig: Seq<char>,
    pub layer_target: Seq<char>,
    pub layer_kind: Seq<char>,
    pub rows: Seq<ChordRowView>,
}

impl View for ChordForm {
    type V = ChordFormView;

    open spec fn view(&self) -> ChordFormView {
        ChordFormView {
            keys: text::texts(self.keys@),
            action: self.action@,
            orig: self.orig@,
            layer_target: self.layer_target@,
            layer_kind: self.layer_kind@,
            rows: text::views(self.rows@),
        }
    }
}

/// The macro editor: the steps so far, the rows that show them, and the fields for the
/// next step.
#[derive(Debug)]
pub struct MacroForm {
    pub steps: Vec<MacroToken>,
    pub rows: Vec<MacroRow>,
    pub text_input: String,
    pub delay_input: String,
    pub chord_key: String,
    pub chord_c: bool,
    pub chord_m: bool,
    pub chord_a: bool,
    pub chord_s: bool,
    pub chord_g: bool,
    pub repeat_on: bool,
    pub repeat_timeout: String,
    pub repeat_count: String,
}

pub struct MacroFormView {
    pub steps: Seq<MacroTokenView>,
    pub rows: Seq<MacroRowView>,
    pub text_input: Seq<char>,
    pub delay_input: Seq<char>,
    pub chord_key: Seq<char>,
    pub chord_c: bool,
    pub chord_m: bool,
    pub chord_a: bool,
    pub chord_s: bool,
    pub chord_g: bool,
    pub repeat_on: bool,
    pub repeat_timeout: Seq<char>,
    pub repeat_count: Seq<char>,
}

impl View for MacroForm {
    type V = MacroFormView;

    open spec fn view(&self) -> MacroFormView {
        MacroFormView {
            steps: text::views(self.steps@),
            rows: text::views(self.rows@),
            text_input: self.text_input@,
            delay_input: self.delay_input@,
            chord_key: self.chord_key@,
            chord_c: self.chord_c,
            chord_m: self.chord_m,
            chord_a: self.chord_a,
            chord_s: self.chord_s,
            chord_g: self.chord_g,
            repeat_on: self.repeat_on,
            repeat_timeout: self.repeat_timeout@,
            repeat_count: self.repeat_count@,
        }
    }
}

/// The section chooser and the layer prompts.
#[derive(Debug)]
pub struct LayerForm {
    /// The section that edits land in.
    pub layer: String,
    pub layers: Vec<String>,
    pub holds: Vec<String>,
    pub can_rename: bool,
    pub rename_target: String,
    pub rename_name: String,
    pub new_open: bool,
    pub new_name: String,
    pub delete_prompt: String,
    pub delete_detail: String,
}

pub struct LayerFormView {
    pub layer: Seq<char>,
    pub layers: Seq<Seq<char>>,
    pub holds: Seq<Seq<char>>,
    pub can_rename: bool,
    pub rename_target: Seq<char>,
    pub rename_name: Seq<char>,
    pub new_open: bool,
    pub new_name: Seq<char>,
    pub delete_prompt: Seq<char>,
    pub delete_detail: Seq<char>,
}

impl View for LayerForm {
    type V = LayerFormView;

    open spec fn view(&self) -> LayerFormView {
        LayerFormView {
            layer: self.layer@,
            layers: text::texts(self.layers@),
            holds: text::texts(self.holds@),
            can_rename: self.can_rename,
            rename_target: self.rename_target@,
            rename_name: self.rename_name@,
            new_open: self.new_open,
            new_name: self.new_name@,
            delete_prompt: self.delete_prompt@,
            delete_detail: self.delete_detail@,
        }
    }
}

/// The searchable key picker.
#[derive(Debug)]
pub struct PickerForm {
    pub open: bool,
    /// The field that a picked key goes to.
    pub target: String,
    pub query: String,
    pub results: Vec<String>,
    /// How many more keys match.
    pub truncated: usize,
}

pub struct PickerFormView {
    pub open: bool,
    pub target: Seq<char>,
    pub query: Seq<char>,
    pub results: Seq<Seq<char>>,
    pub truncated: nat,
}

impl View for PickerForm {
    type V = PickerFormView;

    open spec fn view(&self) -> PickerFormView {
        PickerFormView {
            open: self.open,
            target: self.target@,
            query: self.query@,
            results: text::texts(self.results@),
            truncated: self.truncated as nat,
        }
    }
}

/// The panel around the forms.
#[derive(Debug)]
pub struct Panel {
    /// Edit mode is on.
    pub on: bool,
    pub dirty: bool,
    pub banner: String,
    pub warnings: String,
    pub draft_info: String,
    pub apply_ok: bool,
    pub apply_hint: String,
    pub discard_prompt: bool,
    /// The keyboard to switch to once the discard is confirmed; negative for none.
    pub pending_kbd: i32,
    pub delete_config_prompt: bool,
    pub backups_open: bool,
    pub has_backups: bool,
    /// `single` or `chord`.
    pub board_mode: String,
    pub editing_global: bool,
    pub global_rows: Vec<GlobalRow>,
}

pub struct PanelView {
    pub on: bool,
    pub dirty: bool,
    pub banner: Seq<char>,
    pub warnings: Seq<char>,
    pub draft_info: Seq<char>,
    pub apply_ok: bool,
    pub apply_hint: Seq<char>,
    pub discard_prompt: bool,
    pub pending_kbd: int,
    pub delete_config_prompt: bool,
    pub backups_open: bool,
    pub has_backups: bool,
    pub board_mode: Seq<char>,
    pub editing_global: bool,
    pub global_rows: Seq<GlobalRowView>,
}

impl View for Panel {
    type V = PanelView;

    open spec fn view(&self) -> PanelView {
        PanelView {
            on: self.on,
            dirty: self.dirty,
            banner: self.banner@,
            warnings: self.warnings@,
            draft_info: self.draft_info@,
            apply_ok: self.apply_ok,
            apply_hint: self.apply_hint@,
            discard_prompt: self.discard_prompt,
            pending_kbd: self.pending_kbd as int,
            delete_config_prompt: self.delete_config_prompt,
            backups_open: self.backups_open,
            has_backups: self.has_backups,
            board_mode: self.board_mode@,
            editing_global: self.editing_global,
            global_rows: text::views(self.global_rows@),
        }
    }
}

/// All of edit mode's forms.
#[derive(Debug)]
pub struct EditUi {
    pub key: KeyForm,
    pub tap_hold: TapHoldForm,
    pub action: ActionForm,
    pub chord: ChordForm,
    pub mac: MacroForm,
    pub layers: LayerForm,
    pub picker: PickerForm,
    pub panel: Panel,
}

pub struct EditUiView {
    pub key: KeyFormView,
    pub tap_hold: TapHoldFormView,
    pub action: ActionFormView,
    pub chord: ChordFormView,
    pub mac: MacroFormView,
    pub layers: LayerFormView,
    pub picker: PickerFormView,
    pub panel: PanelView,
}

impl View for EditUi {
    type V = EditUiView;

    open spec fn view(&self) -> EditUiView {
        EditUiView {
            key: self.key@,
            tap_hold: self.tap_hold@,
            action: self.action@,
            chord: self.chord@,
            mac: self.mac@,
            layers: self.layers@,
            picker: self.picker@,
            panel: self.panel@,
        }
    }
}

/// Nothing.
pub open spec fn blank() -> Seq<char> {
    Seq::empty()
}

fn nothing() -> (r: String)
    ensures
        r@ == blank(),
{
    let r = String::new();
    assert(r@ =~= Seq::<char>::empty());
    r
}

/// Of the forms at rest.
pub open spec fn resting() -> EditUiView {
    EditUiView {
        key: KeyFormView {
            phys: blank(),
            current: blank(),
            value: blank(),
            label: blank(),
            has_label: false,
            mode: "simple"@,
            is_macro: false,
            is_tap_hold: false,
            is_layer_action: false,
            armed: false,
        },
        tap_hold: TapHoldFormView { feel: blank(), hold: blank(), tap: blank() },
        action: ActionFormView { kind: "momentary"@, target: blank() },
        chord: ChordFormView {
            keys: Seq::empty(),
            action: blank(),
            orig: blank(),
            layer_target: blank(),
            layer_kind: "momentary"@,
            rows: Seq::empty(),
        },
        mac: MacroFormView {
            steps: Seq::empty(),
            rows: Seq::empty(),
            text_input: blank(),
            delay_input: blank(),
            chord_key: blank(),
            chord_c: false,
            chord_m: false,
            chord_a: false,
            chord_s: false,
            chord_g: false,
            repeat_on: false,
            repeat_timeout: blank(),
            repeat_count: blank(),
        },
        layers: LayerFormView {
            layer: blank(),
            layers: Seq::empty(),
            holds: Seq::empty(),
            can_rename: false,
            rename_target: blank(),
            rename_name: blank(),
            new_open: false,
            new_name: blank(),
            delete_prompt: blank(),
            delete_detail: blank(),
        },
        picker: PickerFormView {
            open: false,
            target: blank(),
            query: blank(),
            results: Seq::empty(),
            truncated: 0,
        },
        panel: PanelView {
            on: false,
            dirty: false,
            banner: blank(),
            warnings: blank(),
            draft_info: blank(),
            apply_ok: false,
            apply_hint: blank(),
            discard_prompt: false,
            pending_kbd: -1,
            delete_config_prompt: false,
            backups_open: false,
            has_backups: false,
            board_mode: "single"@,
            editing_global: false,
            global_rows: Seq::empty(),
        },
    }
}

// ---------------------------------------------------------------------------
// Clearing
// ---------------------------------------------------------------------------

/// The chord builder emptied: no members, no chord being edited, no target left over.
pub open spec fn builder_cleared(c: ChordFormView) -> ChordFormView {
    ChordFormView {
        keys: Seq::empty(),
        orig: blank(),
        layer_target: blank(),
        layer_kind: "momentary"@,
        ..c
    }
}

/// The fields for a chord step emptied.
pub open spec fn chord_step_cleared(m: MacroFormView) -> MacroFormView {
    MacroFormView {
        chord_key: blank(),
        chord_c: false,
        chord_m: false,
        chord_a: false,
        chord_s: false,
        chord_g: false,
        ..m
    }
}

/// The macro editor emptied; the steps stay until a key is selected.
pub open spec fn macro_cleared(m: MacroFormView) -> MacroFormView {
    chord_step_cleared(
        MacroFormView {
            rows: Seq::empty(),
            text_input: blank(),
            delay_input: blank(),
            repeat_on: false,
            repeat_timeout: blank(),
            repeat_count: blank(),
            ..m
        },
    )
}

impl ChordForm {
    /// Empty the member list and forget any chord being edited.
    pub fn clear_chord_builder(&mut self)
        ensures
            final(self)@ == builder_cleared(old(self)@),
    {
        self.keys = Vec::new();
        self.orig = nothing();
        self.layer_target = nothing();
        self.layer_kind = strings::copy("momentary");
        assert(text::texts(self.keys@) =~= Seq::<Seq<char>>::empty());
    }
}

impl MacroForm {
    /// Clear the fields for a chord step.
    pub fn reset_macro_chord_form(&mut self)
        ensures
            final(self)@ == chord_step_cleared(old(self)@),
    {
        self.chord_key = nothing();
        self.chord_c = false;
        self.chord_m = false;
        self.chord_a = false;
        self.chord_s = false;
        self.chord_g = false;
    }

    /// Empty the macro editor.
    pub fn clear(&mut self)
        ensures
            final(self)@ == macro_cleared(old(self)@),
    {
        self.rows = Vec::new();
        assert(text::views(self.rows@) =~= Seq::<MacroRowView>::empty());
        self.text_input = nothing();
        self.delay_input = nothing();
        self.repeat_on = false;
        self.repeat_timeout = nothing();
        self.repeat_count = nothing();
        self.reset_macro_chord_form();
    }

    /// Show the steps as rows.
    pub fn push_macro_rows(&mut self, words: &Vec<ModWord>)
        ensures
            final(self)@ == (MacroFormView {
                rows: edit_rows::rows_of(text::views(words@), old(self)@.steps),
                ..old(self)@
            }),
    {
        self.rows = edit_rows::macro_rows(words, &self.steps);
    }
}

// ---------------------------------------------------------------------------
// What a key is bound to
// ---------------------------------------------------------------------------

/// The feel of a tap/hold.
#[derive(Debug, Clone, Copy, PartialEq, Eq, Structural)]
pub enum Behavior {
    Responsive,
    TypingSafe,
}

/// The token of a feel; empty for a form without one, so that editing it preserves the
/// form.
pub open spec fn feel_token(b: Option<Behavior>) -> Seq<char> {
    match b {
        Some(Behavior::Responsive) => "fast"@,
        Some(Behavior::TypingSafe) => "safe"@,
        None => blank(),
    }
}

/// The token of a feel.
pub fn feel_str(b: Option<Behavior>) -> (r: String)
    ensures
        r@ == feel_token(b),
{
    match b {
        Some(Behavior::Responsive) => strings::copy("fast"),
        Some(Behavior::TypingSafe) => strings::copy("safe"),
        None => nothing(),
    }
}

/// The feel of a token.
pub open spec fn feel_of(token: Seq<char>) -> Option<Behavior> {
    if token == "fast"@ {
        Some(Behavior::Responsive)
    } else if token == "safe"@ {
        Some(Behavior::TypingSafe)
    } else {
        None
    }
}

/// The feel of a token; none means that an existing form is preserved.
pub fn feel_from_str(s: &str) -> (r: Option<Behavior>)
    ensures
        r == feel_of(s@),
{
    if strings::same(s, "fast") {
        Some(Behavior::Responsive)
    } else if strings::same(s, "safe") {
        Some(Behavior::TypingSafe)
    } else {
        None
    }
}

/// A feel is read back from its token.
pub proof fn feel_tokens_are_read_back(b: Option<Behavior>)
    ensures
        feel_of(feel_token(b)) == b,
{
    reveal_strlit("fast");
    reveal_strlit("safe");
    assert("fast"@.len() == 4 && "fast"@[0] == 'f');
    assert("safe"@.len() == 4 && "safe"@[0] == 's');
    assert(blank().len() == 0);
}

/// A binding decomposed as a tap/hold.
#[derive(Debug)]
pub struct TapHold {
    pub target: String,
    pub tap: Option<String>,
    pub behavior: Option<Behavior>,
}

pub struct TapHoldView {
    pub target: Seq<char>,
    pub tap: Option<Seq<char>>,
    pub behavior: Option<Behavior>,
}

impl View for TapHold {
    type V = TapHoldView;

    open spec fn view(&self) -> TapHoldView {
        TapHoldView {
            target: self.target@,
            tap: text::opt(self.tap),
            behavior: self.behavior,
        }
    }
}

/// A binding decomposed as a macro: its steps, and the two times of a repeat.
#[derive(Debug)]
pub struct Macro {
    pub steps: Vec<MacroToken>,
    pub repeat: Option<(u32, u32)>,
}

pub struct MacroView {
    pub steps: Seq<MacroTokenView>,
    pub repeat: Option<(nat, nat)>,
}

/// The times of a repeat as numbers.
pub open spec fn times(r: Option<(u32, u32)>) -> Option<(nat, nat)> {
    match r {
        Some((t, n)) => Some((t as nat, n as nat)),
        None => None,
    }
}

impl View for Macro {
    type V = MacroView;

    open spec fn view(&self) -> MacroView {
        MacroView { steps: text::views(self.steps@), repeat: times(self.repeat) }
    }
}

/// A binding decomposed as a layer action: its kind's token and its target.
#[derive(Debug)]
pub struct LayerAction {
    pub kind: String,
    pub target: String,
}

/// What is known of a key in the layer: its binding, that binding taken apart where it
/// is a tap/hold or a macro, and the key's custom label.
#[derive(Debug)]
pub struct KeyFacts {
    pub binding: Option<String>,
    pub tap_hold: Option<TapHold>,
    pub mac: Option<Macro>,
    pub label: Option<String>,
}

pub struct KeyFactsView {
    pub binding: Option<Seq<char>>,
    pub tap_hold: Option<TapHoldView>,
    pub mac: Option<MacroView>,
    pub label: Option<Seq<char>>,
}

impl View for KeyFacts {
    type V = KeyFactsView;

    open spec fn view(&self) -> KeyFactsView {
        KeyFactsView {
            binding: text::opt(self.binding),
            tap_hold: match self.tap_hold {
                Some(t) => Some(t@),
                None => None,
            },
            mac: match self.mac {
                Some(m) => Some(m@),
                None => None,
            },
            label: text::opt(self.label),
        }
    }
}

/// An optional text, or nothing.
pub open spec fn or_blank(o: Option<Seq<char>>) -> Seq<char> {
    match o {
        Some(t) => t,
        None => blank(),
    }
}

fn copy_or_blank(o: &Option<String>) -> (r: String)
    ensures
        r@ == or_blank(text::opt(*o)),
{
    match o {
        Some(t) => strings::copy(t.as_str()),
        None => nothing(),
    }
}

// ---------------------------------------------------------------------------
// Seeding
// ---------------------------------------------------------------------------

/// The tap that a fresh dual-function key starts with: what the key is simply remapped
/// to, or the key itself where it is unbound or bound to something else.
pub open spec fn default_tap(binding: Option<Seq<char>>, phys: Seq<char>) -> Seq<char> {
    match binding {
        Some(v) => if v.len() > 0 && !text::has_part(v, "("@) && v != "noop"@ {
            v
        } else {
            phys
        },
        None => phys,
    }
}

/// The slots for a key.
pub open spec fn slots(
    found: Option<TapHoldView>,
    binding: Option<Seq<char>>,
    phys: Seq<char>,
) -> TapHoldFormView {
    match found {
        Some(t) => TapHoldFormView {
            feel: feel_token(t.behavior),
            hold: t.target,
            tap: or_blank(t.tap),
        },
        None => TapHoldFormView {
            feel: "fast"@,
            hold: blank(),
            tap: default_tap(binding, phys),
        },
    }
}

/// The macro editor for a key: the steps of its macro, or an empty builder.
pub open spec fn macro_seeded(
    m: MacroFormView,
    found: Option<MacroView>,
    words: Seq<ModWordView>,
) -> MacroFormView {
    let steps = match found {
        Some(x) => x.steps,
        None => Seq::empty(),
    };
    let repeat = match found {
        Some(x) => x.repeat,
        None => None,
    };
    chord_step_cleared(
        MacroFormView {
            steps,
            rows: edit_rows::rows_of(words, steps),
            text_input: blank(),
            delay_input: blank(),
            repeat_on: repeat is Some,
            repeat_timeout: match repeat {
                Some((t, _)) => text::decimal(t),
                None => blank(),
            },
            repeat_count: match repeat {
                Some((_, n)) => text::decimal(n),
                None => blank(),
            },
            ..m
        },
    )
}

/// The editor that fits a key's binding.
pub open spec fn mode_for(is_macro: bool, is_tap_hold: bool) -> Seq<char> {
    if is_macro {
        "macro"@
    } else if is_tap_hold {
        "taphold"@
    } else {
        "simple"@
    }
}

/// A copy of macro steps.
pub fn copy_steps(steps: &Vec<MacroToken>) -> (r: Vec<MacroToken>)
    ensures
        text::views(r@) == text::views(steps@),
{
    let ghost all = text::views(steps@);
    let mut r: Vec<MacroToken> = Vec::new();
    let mut i: usize = 0;
    while i < steps.len()
        invariant
            i <= steps@.len(),
            all == text::views(steps@),
            text::views(r@) == all.subrange(0, i as int),
        decreases steps.len() - i,
    {
        let ghost before = text::views(r@);
        let one = match &steps[i] {
            MacroToken::Key(k) => MacroToken::Key(strings::copy(k.as_str())),
            MacroToken::Delay(n) => MacroToken::Delay(*n),
            MacroToken::Text(t) => MacroToken::Text(strings::copy(t.as_str())),
            MacroToken::Chord { mods, keys } => {
                let mut letters: Vec<char> = Vec::new();
                let mut k: usize = 0;
                while k < mods.len()
                    invariant
                        k <= mods@.len(),
                        letters@ == mods@.subrange(0, k as int),
                    decreases mods.len() - k,
                {
                    letters.push(mods[k]);
                    assert(letters@ =~= mods@.subrange(0, k + 1));
                    k = k + 1;
                }
                assert(mods@.subrange(0, k as int) =~= mods@);
                MacroToken::Chord { mods: letters, keys: strings::copy_all(keys) }
            },
        };
        assert(one@ == all[i as int]);
        r.push(one);
        assert(text::views(r@) =~= before.push(all[i as int]));
        assert(all.subrange(0, i + 1) =~= before.push(all[i as int]));
        i = i + 1;
    }
    assert(all.subrange(0, i as int) =~= all);
    r
}

impl MacroForm {
    /// Seed the macro editor from a key's macro, if its binding is one that can be taken
    /// apart; else reset it to an empty builder.
    pub fn seed_macro(&mut self, found: &Option<Macro>, words: &Vec<ModWord>)
        ensures
            final(self)@ == macro_seeded(
                old(self)@,
                match *found {
                    Some(m) => Some(m@),
                    None => None,
                },
                text::views(words@),
            ),
    {
        let mut timeout = nothing();
        let mut count = nothing();
        let mut steps: Vec<MacroToken> = Vec::new();
        let mut on = false;
        assert(text::views(steps@) =~= Seq::<MacroTokenView>::empty());
        if let Some(m) = found {
            steps = copy_steps(&m.steps);
            if let Some((t, n)) = m.repeat {
                on = true;
                timeout = strings::decimal(t as u64);
                count = strings::decimal(n as u64);
            }
        }
        self.steps = steps;
        self.repeat_on = on;
        self.repeat_timeout = timeout;
        self.repeat_count = count;
        self.push_macro_rows(words);
        self.text_input = nothing();
        self.delay_input = nothing();
        self.reset_macro_chord_form();
    }
}

/// The forms seeded for a key.
pub open spec fn seeded(
    u: EditUiView,
    f: KeyFactsView,
    phys: Seq<char>,
    words: Seq<ModWordView>,
) -> EditUiView {
    EditUiView {
        key: KeyFormView {
            label: or_blank(f.label),
            has_label: or_blank(f.label).len() > 0,
            is_macro: f.mac is Some,
            is_tap_hold: f.tap_hold is Some,
            ..u.key
        },
        tap_hold: slots(f.tap_hold, f.binding, phys),
        mac: macro_seeded(u.mac, f.mac, words),
        ..u
    }
}

/// The layer-action picker for a key's layer action, or at rest.
pub open spec fn action_slots(found: Option<LayerAction>) -> ActionFormView {
    match found {
        Some(a) => ActionFormView { kind: a.kind@, target: a.target@ },
        None => ActionFormView { kind: "momentary"@, target: blank() },
    }
}

impl EditUi {
    /// Pre-fill the tap/hold slots for a key.
    pub fn seed_tap_hold(&mut self, found: &Option<TapHold>, binding: &Option<String>, phys: &str)
        ensures
            final(self)@ == (EditUiView {
                key: KeyFormView { is_tap_hold: found is Some, ..old(self)@.key },
                tap_hold: slots(
                    match *found {
                        Some(t) => Some(t@),
                        None => None,
                    },
                    text::opt(*binding),
                    phys@,
                ),
                ..old(self)@
            }),
    {
        match found {
            Some(t) => {
                self.key.is_tap_hold = true;
                self.tap_hold = TapHoldForm {
                    feel: feel_str(t.behavior),
                    hold: strings::copy(t.target.as_str()),
                    tap: copy_or_blank(&t.tap),
                };
            },
            None => {
                let tap = match binding {
                    Some(v) => {
                        let s = v.as_str();
                        if !s.is_empty() && !strings::has_part(s, "(") && !strings::same(
                            s,
                            "noop",
                        ) {
                            strings::copy(s)
                        } else {
                            strings::copy(phys)
                        }
                    },
                    None => strings::copy(phys),
                };
                self.key.is_tap_hold = false;
                self.tap_hold = TapHoldForm { feel: strings::copy("fast"), hold: nothing(), tap };
            },
        }
    }

    /// Pre-fill the layer-action picker for a key.
    pub fn seed_layer_action(&mut self, found: &Option<LayerAction>)
        ensures
            final(self)@ == (EditUiView {
                key: KeyFormView { is_layer_action: found is Some, ..old(self)@.key },
                action: action_slots(*found),
                ..old(self)@
            }),
    {
        match found {
            Some(a) => {
                self.key.is_layer_action = true;
                self.action = ActionForm {
                    kind: strings::copy(a.kind.as_str()),
                    target: strings::copy(a.target.as_str()),
                };
            },
            None => {
                self.key.is_layer_action = false;
                self.action = ActionForm { kind: strings::copy("momentary"), target: nothing() };
            },
        }
    }

    /// Seed the label field for a key.
    pub fn seed_label(&mut self, label: &Option<String>)
        ensures
            final(self)@ == (EditUiView {
                key: KeyFormView {
                    label: or_blank(text::opt(*label)),
                    has_label: or_blank(text::opt(*label)).len() > 0,
                    ..old(self)@.key
                },
                ..old(self)@
            }),
    {
        let l = copy_or_blank(label);
        self.key.has_label = !l.as_str().is_empty();
        self.key.label = l;
    }

    /// Seed all the forms for a key.
    pub fn seed(&mut self, f: &KeyFacts, phys: &str, words: &Vec<ModWord>)
        ensures
            final(self)@ == seeded(old(self)@, f@, phys@, text::views(words@)),
    {
        self.seed_tap_hold(&f.tap_hold, &f.binding, phys);
        self.mac.seed_macro(&f.mac, words);
        self.key.is_macro = f.mac.is_some();
        self.seed_label(&f.label);
    }
}

// ---------------------------------------------------------------------------
// Entering and leaving
// ---------------------------------------------------------------------------

/// The section that edit mode starts in: the first that there is.
pub open spec fn first_layer(layers: Seq<Seq<char>>) -> Seq<char> {
    if layers.len() > 0 {
        layers[0]
    } else {
        "main"@
    }
}

/// What is shown of a session: its sections, the targets of a hold, the warnings.
pub struct SessionView {
    pub layers: Seq<Seq<char>>,
    pub holds: Seq<Seq<char>>,
    pub warnings: Seq<char>,
    pub dirty: bool,
}

/// What is shown of a session.
pub open spec fn shown_of(s: EditSession, modifiers: Seq<Seq<char>>) -> SessionView {
    let layers = editing::editable(text::views(s.model.sections@));
    SessionView {
        layers,
        holds: edit_rows::holdable(layers, modifiers),
        warnings: text::join(editing::orphan_lines(text::views(s.model.orphans@)), "\n"@),
        dirty: s.created || s.model.edited,
    }
}

/// The rows of a layer's chords.
pub open spec fn layer_rows(s: EditSession, layer: Seq<char>) -> Seq<ChordRowView> {
    edit_rows::chord_rows_of(editing::chords_in(text::views(s.model.sections@), layer))
}

/// What the library knows of keyd's vocabulary: the modifiers' names and words, and the
/// documented global options.
#[derive(Debug)]
pub struct Vocabulary {
    pub modifiers: Vec<String>,
    pub words: Vec<ModWord>,
    pub options: Vec<GlobalOption>,
}

/// The forms of a session that was just opened or created.
pub open spec fn entered(
    u: EditUiView,
    s: EditSession,
    vocab: Vocabulary,
    apply_ok: bool,
    apply_hint: Seq<char>,
    banner: Seq<char>,
    has_backups: bool,
) -> EditUiView {
    let now = shown_of(s, text::texts(vocab.modifiers@));
    let layer = first_layer(now.layers);
    EditUiView {
        key: KeyFormView { is_tap_hold: u.key.is_tap_hold, ..resting().key },
        tap_hold: u.tap_hold,
        action: resting().action,
        chord: ChordFormView { rows: layer_rows(s, layer), ..resting().chord },
        mac: macro_cleared(u.mac),
        layers: LayerFormView {
            layer,
            layers: now.layers,
            holds: now.holds,
            can_rename: edit_rows::may_rename(layer),
            ..resting().layers
        },
        picker: u.picker,
        panel: PanelView {
            on: true,
            dirty: now.dirty,
            banner,
            warnings: now.warnings,
            draft_info: blank(),
            apply_ok,
            apply_hint,
            backups_open: false,
            has_backups,
            board_mode: "single"@,
            editing_global: false,
            global_rows: edit_rows::global_rows_of(
                text::views(vocab.options@),
                editing::options_of(s.model.global),
            ),
            ..u.panel
        },
    }
}

/// The forms after edit mode was left; whether it is on is not decided here.
pub open spec fn left_behind(u: EditUiView) -> EditUiView {
    EditUiView {
        key: KeyFormView {
            is_tap_hold: u.key.is_tap_hold,
            current: u.key.current,
            value: u.key.value,
            ..resting().key
        },
        tap_hold: u.tap_hold,
        action: resting().action,
        chord: resting().chord,
        mac: macro_cleared(u.mac),
        layers: LayerFormView {
            layer: u.layers.layer,
            layers: u.layers.layers,
            holds: u.layers.holds,
            ..resting().layers
        },
        picker: u.picker,
        panel: PanelView { on: u.panel.on, warnings: u.panel.warnings, ..resting().panel },
    }
}

/// The forms with edit mode off.
pub open spec fn gone(u: EditUiView) -> EditUiView {
    EditUiView { panel: PanelView { on: false, ..left_behind(u).panel }, ..left_behind(u) }
}

/// The warnings of a session, one on each line.
pub fn warning_text(s: &EditSession) -> (r: String)
    ensures
        r@ == text::join(editing::orphan_lines(text::views(s.model.orphans@)), "\n"@),
{
    strings::join(&s.orphan_warnings(), "\n")
}

impl EditUi {
    /// Enter edit mode for a session, freshly opened or just created: seed every form,
    /// close the backups, which are offered where there are any, and freeze the board to
    /// the first section.
    pub fn enter_edit_session(
        &mut self,
        s: &EditSession,
        vocab: &Vocabulary,
        apply_ok: bool,
        apply_hint: String,
        banner: String,
        has_backups: bool,
    )
        ensures
            final(self)@ == entered(
                old(self)@,
                *s,
                *vocab,
                apply_ok,
                apply_hint@,
                banner@,
                has_backups,
            ),
    {
        let layers = s.editable_sections();
        let holds = edit_rows::hold_layer_choices(&layers, &vocab.modifiers);
        let ghost names = text::texts(layers@);
        let layer = if layers.len() > 0 {
            strings::copy(layers[0].as_str())
        } else {
            strings::copy("main")
        };
        assert(layer@ == first_layer(names));
        let rows = edit_rows::chord_rows(&s.chords(layer.as_str()));
        let globals = edit_rows::global_rows_for(&vocab.options, &s.global_entries());
        self.key = KeyForm {
            phys: nothing(),
            current: nothing(),
            value: nothing(),
            label: nothing(),
            has_label: false,
            mode: strings::copy("simple"),
            is_macro: false,
            is_tap_hold: self.key.is_tap_hold,
            is_layer_action: false,
            armed: false,
        };
        self.action = ActionForm { kind: strings::copy("momentary"), target: nothing() };
        self.chord.clear_chord_builder();
        self.chord.action = nothing();
        self.chord.rows = rows;
        self.mac.clear();
        self.layers = LayerForm {
            can_rename: edit_rows::renameable(layer.as_str()),
            layer,
            layers,
            holds,
            rename_target: nothing(),
            rename_name: nothing(),
            new_open: false,
            new_name: nothing(),
            delete_prompt: nothing(),
            delete_detail: nothing(),
        };
        self.panel.on = true;
        self.panel.dirty = s.dirty();
        self.panel.banner = banner;
        self.panel.warnings = warning_text(s);
        self.panel.draft_info = nothing();
        self.panel.apply_ok = apply_ok;
        self.panel.apply_hint = apply_hint;
        self.panel.backups_open = false;
        self.panel.has_backups = has_backups;
        self.panel.board_mode = strings::copy("single");
        self.panel.editing_global = false;
        self.panel.global_rows = globals;
    }

    /// Clear every form back to its resting state.
    pub fn reset_edit_ui(&mut self)
        ensures
            final(self)@ == left_behind(old(self)@),
    {
        self.key.armed = false;
        self.key.phys = nothing();
        self.key.label = nothing();
        self.key.has_label = false;
        self.key.mode = strings::copy("simple");
        self.key.is_macro = false;
        self.key.is_layer_action = false;
        self.action = ActionForm { kind: strings::copy("momentary"), target: nothing() };
        self.chord.clear_chord_builder();
        self.chord.action = nothing();
        self.chord.rows = Vec::new();
        assert(text::views(self.chord.rows@) =~= Seq::<ChordRowView>::empty());
        self.mac.clear();
        self.layers.can_rename = false;
        self.layers.rename_target = nothing();
        self.layers.rename_name = nothing();
        self.layers.new_open = false;
        self.layers.new_name = nothing();
        self.layers.delete_prompt = nothing();
        self.layers.delete_detail = nothing();
        self.panel.dirty = false;
        self.panel.banner = nothing();
        self.panel.draft_info = nothing();
        self.panel.apply_ok = false;
        self.panel.apply_hint = nothing();
        self.panel.discard_prompt = false;
        self.panel.pending_kbd = -1;
        self.panel.delete_config_prompt = false;
        self.panel.backups_open = false;
        self.panel.has_backups = false;
        self.panel.board_mode = strings::copy("single");
        self.panel.editing_global = false;
        self.panel.global_rows = Vec::new();
        assert(text::views(self.panel.global_rows@) =~= Seq::<GlobalRowView>::empty());
    }

    /// Leave edit mode.
    pub fn leave(&mut self)
        ensures
            final(self)@ == gone(old(self)@),
    {
        self.reset_edit_ui();
        self.panel.on = false;
    }
}

/// Leaving edit mode leaves nothing staged behind: no key is selected, no prompt is open,
/// nothing is dirty, and no half-built chord or armed capture can act later.
pub proof fn leaving_clears_what_was_staged(u: EditUiView)
    ensures
        left_behind(u).key.phys.len() == 0,
        !left_behind(u).key.armed,
        left_behind(u).chord.keys.len() == 0,
        left_behind(u).chord.orig.len() == 0,
        left_behind(u).mac.rows.len() == 0,
        left_behind(u).layers.delete_prompt.len() == 0,
        left_behind(u).layers.rename_target.len() == 0,
        !left_behind(u).panel.dirty,
        !left_behind(u).panel.discard_prompt,
        !left_behind(u).panel.apply_ok,
        left_behind(u).panel.pending_kbd == -1,
        left_behind(left_behind(u)) == left_behind(u),
{
}

/// What becomes of the sheet of a session that is left.
#[derive(Debug, PartialEq, Eq)]
pub enum SheetAfter {
    /// The config has no sheet.
    Nothing,
    /// A config that was never persisted: its sheet goes.
    Drop { index: usize },
    /// The sheet is derived again from the file, discarding the preview.
    Reload { index: usize },
}

/// What becomes of the sheet of a session that is left, `created` being whether it was
/// started here and not opened from a file.
pub open spec fn sheet_after(created: bool, index: Option<usize>, on_disk: bool) -> SheetAfter {
    match index {
        None => SheetAfter::Nothing,
        Some(i) => if created && !on_disk {
            SheetAfter::Drop { index: i }
        } else {
            SheetAfter::Reload { index: i }
        },
    }
}

/// What becomes of the sheet of a session that is left: `index` is its sheet, and
/// `on_disk` says whether the file exists.
pub fn exit_edit(s: &EditSession, index: Option<usize>, on_disk: bool) -> (r: SheetAfter)
    ensures
        r == sheet_after(s.created, index, on_disk),
{
    match index {
        None => SheetAfter::Nothing,
        Some(i) => if s.is_new() && !on_disk {
            SheetAfter::Drop { index: i }
        } else {
            SheetAfter::Reload { index: i }
        },
    }
}

/// The forms show what a key is: the slots hold its tap/hold; a key without one starts from
/// the fast feel, no hold, and a tap that keeps what a tap of it did, which is its plain
/// remapping, or the key itself where it has none, does nothing, or is bound to a function.
pub proof fn the_slots_show_the_key(
    found: Option<TapHoldView>,
    binding: Option<Seq<char>>,
    phys: Seq<char>,
)
    ensures
        ({
            let f = slots(found, binding, phys);
            let plain = binding is Some && binding->0.len() > 0 && binding->0 != "noop"@
                && !text::has_part(binding->0, "("@);
            &&& found is Some ==> f.hold == found->0.target && feel_of(f.feel)
                == found->0.behavior
            &&& found is Some && found->0.tap is Some ==> f.tap == found->0.tap->0
            &&& found is Some && found->0.tap is None ==> f.tap.len() == 0
            &&& found is None ==> f.hold.len() == 0 && feel_of(f.feel) == Some(
                Behavior::Responsive,
            )
            &&& found is None && plain ==> f.tap == binding->0
            &&& found is None && !plain ==> f.tap == phys
        }),
{
    if found is Some {
        feel_tokens_are_read_back(found->0.behavior);
    }
}

/// The macro editor shows a key's macro: its steps, a row for each, and its two times where
/// it repeats; a key without a macro starts an empty one. Nothing typed before stays.
pub proof fn the_editor_shows_the_macro(
    m: MacroFormView,
    found: Option<MacroView>,
    words: Seq<ModWordView>,
)
    ensures
        ({
            let f = macro_seeded(m, found, words);
            &&& found is Some ==> f.steps == found->0.steps
            &&& found is None ==> f.steps.len() == 0 && !f.repeat_on
            &&& f.rows == edit_rows::rows_of(words, f.steps)
            &&& found is Some ==> f.repeat_on == (found->0.repeat is Some)
            &&& found is Some && found->0.repeat is Some ==> f.repeat_timeout == text::decimal(
                (found->0.repeat->0).0,
            ) && f.repeat_count == text::decimal((found->0.repeat->0).1)
            &&& f.text_input.len() == 0 && f.delay_input.len() == 0 && f.chord_key.len() == 0
            &&& !f.chord_c && !f.chord_m && !f.chord_a && !f.chord_s && !f.chord_g
        }),
{
}

/// Entering edit mode shows the session from its first section, `main` where it has none:
/// edit mode is on, the chooser lists the sections and the section's chords are shown, what
/// is said, warned about and offered is the session's, and nothing is selected, armed,
/// half built or open.
pub proof fn entering_starts_afresh(
    u: EditUiView,
    s: EditSession,
    vocab: Vocabulary,
    apply_ok: bool,
    apply_hint: Seq<char>,
    banner: Seq<char>,
    has_backups: bool,
)
    ensures
        ({
            let v = entered(u, s, vocab, apply_ok, apply_hint, banner, has_backups);
            let layers = editing::editable(text::views(s.model.sections@));
            let first = if layers.len() > 0 {
                layers[0]
            } else {
                "main"@
            };
            &&& v.panel.on
            &&& v.layers.layer == first && v.layers.layers == layers
            &&& v.layers.holds == edit_rows::holdable(layers, text::texts(vocab.modifiers@))
            &&& v.layers.can_rename <==> first.len() > 0 && first != "main"@ && !first.contains(
                '+',
            )
            &&& v.chord.rows == edit_rows::chord_rows_of(
                editing::chords_in(text::views(s.model.sections@), first),
            )
            &&& v.panel.global_rows == edit_rows::global_rows_of(
                text::views(vocab.options@),
                editing::options_of(s.model.global),
            )
            &&& v.panel.dirty == (s.created || s.model.edited)
            &&& v.panel.warnings == text::join(
                editing::orphan_lines(text::views(s.model.orphans@)),
                "\n"@,
            )
            &&& v.panel.banner == banner && v.panel.apply_ok == apply_ok && v.panel.apply_hint
                == apply_hint
            &&& v.panel.has_backups == has_backups && !v.panel.backups_open
            &&& v.panel.board_mode == "single"@ && !v.panel.editing_global
            &&& v.panel.draft_info.len() == 0
            &&& v.key.phys.len() == 0 && v.key.value.len() == 0 && v.key.current.len() == 0
            &&& v.key.mode == "simple"@ && !v.key.armed && !v.key.is_macro && !v.key.has_label
            &&& v.chord.keys.len() == 0 && v.chord.orig.len() == 0 && v.chord.action.len() == 0
            &&& v.mac.rows.len() == 0 && !v.mac.repeat_on
            &&& v.layers.delete_prompt.len() == 0 && v.layers.rename_target.len() == 0
                && !v.layers.new_open
        }),
{
}

/// Leaving turns edit mode off and closes the backups and every prompt; the sheet of a
/// config that was started here and never written goes, and any other is read again.
pub proof fn leaving_turns_edit_mode_off(
    u: EditUiView,
    created: bool,
    index: Option<usize>,
    on_disk: bool,
)
    ensures
        !gone(u).panel.on,
        !gone(u).panel.dirty,
        !gone(u).panel.backups_open,
        !gone(u).panel.has_backups,
        !gone(u).panel.delete_config_prompt,
        !gone(u).panel.editing_global,
        gone(u).panel.banner.len() == 0,
        gone(u).panel.draft_info.len() == 0,
        gone(u).panel.board_mode == "single"@,
        gone(u).key.phys.len() == 0,
        !gone(u).key.armed,
        sheet_after(created, index, on_disk) is Nothing <==> index is None,
        sheet_after(created, index, on_disk) is Drop <==> index is Some && created && !on_disk,
        index is Some && created && !on_disk ==> sheet_after(created, index, on_disk) == (
        SheetAfter::Drop { index: index->0 }),
        index is Some && !(created && !on_disk) ==> sheet_after(created, index, on_disk) == (
        SheetAfter::Reload { index: index->0 }),
{
}

/// The forms of a key show what it is: its label, whether it has one, and whether it is a
/// macro or a tap/hold, with the editors filled from it; the key selected stays selected.
pub proof fn the_forms_show_the_key(
    u: EditUiView,
    f: KeyFactsView,
    phys: Seq<char>,
    words: Seq<ModWordView>,
)
    ensures
        ({
            let v = seeded(u, f, phys, words);
            &&& f.label is Some ==> v.key.label == f.label->0
            &&& f.label is None ==> v.key.label.len() == 0
            &&& v.key.has_label <==> f.label is Some && f.label->0.len() > 0
            &&& v.key.is_macro <==> f.mac is Some
            &&& v.key.is_tap_hold <==> f.tap_hold is Some
            &&& v.key.phys == u.key.phys && v.key.mode == u.key.mode && v.key.armed == u.key.armed
            &&& v.tap_hold == slots(f.tap_hold, f.binding, phys)
            &&& v.mac == macro_seeded(u.mac, f.mac, words)
            &&& v.panel == u.panel && v.layers == u.layers && v.chord == u.chord
        }),
{
}

/// The layer-action picker shows a key's own action and target, and at rest the momentary one
/// with no target.
pub proof fn the_picker_shows_the_layer_action(a: LayerAction)
    ensures
        action_slots(Some(a)).kind == a.kind@,
        action_slots(Some(a)).target == a.target@,
        action_slots(None).kind == "momentary"@,
        action_slots(None).target.len() == 0,
{
}

/// Emptying the macro editor empties every field of it, those of a chord step among them,
/// and emptying those leaves the rest.
pub proof fn an_emptied_editor_is_empty(m: MacroFormView)
    ensures
        ({
            let a = macro_cleared(m);
            let c = chord_step_cleared(m);
            &&& a.rows.len() == 0 && a.text_input.len() == 0 && a.delay_input.len() == 0
            &&& !a.repeat_on && a.repeat_timeout.len() == 0 && a.repeat_count.len() == 0
            &&& a.chord_key.len() == 0 && !a.chord_c && !a.chord_m && !a.chord_a && !a.chord_s
                && !a.chord_g
            &&& a.steps == m.steps
            &&& c.chord_key.len() == 0 && !c.chord_c && !c.chord_m && !c.chord_a && !c.chord_s
                && !c.chord_g
            &&& c.steps == m.steps && c.rows == m.rows && c.text_input == m.text_input
                && c.delay_input == m.delay_input && c.repeat_on == m.repeat_on
                && c.repeat_timeout == m.repeat_timeout && c.repeat_count == m.repeat_count
        }),
{
}

/// Leaving puts every form of the session at rest and leaves alone what is not of it: whether
/// edit mode is on, the warnings, the slots, the picker, the value last shown, the steps, and
/// the layers that there are.
pub proof fn leaving_keeps_what_is_not_staged(u: EditUiView)
    ensures
        ({
            let v = left_behind(u);
            &&& v.panel.on == u.panel.on && v.panel.warnings == u.panel.warnings
            &&& v.tap_hold == u.tap_hold && v.picker == u.picker && v.mac.steps == u.mac.steps
            &&& v.key.is_tap_hold == u.key.is_tap_hold && v.key.current == u.key.current
                && v.key.value == u.key.value
            &&& v.layers.layer == u.layers.layer && v.layers.layers == u.layers.layers
                && v.layers.holds == u.layers.holds
            &&& v.key.label.len() == 0 && !v.key.has_label && !v.key.is_macro
                && !v.key.is_layer_action && v.key.mode == "simple"@
            &&& v.action.kind == "momentary"@ && v.action.target.len() == 0
            &&& v.chord.action.len() == 0 && v.chord.rows.len() == 0 && v.chord.layer_target.len()
                == 0 && v.chord.layer_kind == "momentary"@
            &&& v.panel.banner.len() == 0 && v.panel.draft_info.len() == 0
                && v.panel.apply_hint.len() == 0 && v.panel.global_rows.len() == 0
            &&& !v.panel.backups_open && !v.panel.has_backups && !v.panel.editing_global
        }),
{
}

} // verus!
