//! Edit mode's forms.

use keydviz::edit_actions::{
    drops_edited_chord, toggle_chord_member, BindRequest, KeyRequest, Leave, Open,
};
use keydviz::edit_rows::{
    affected_line, chord_members, chord_rows, delete_detail, global_rows_for, hold_layer_choices,
    macro_row, mod_label, renameable, GlobalOption, MacroToken, ModWord,
};
use keydviz::edit_ui::{
    exit_edit, feel_from_str, feel_str, ActionForm, Behavior, ChordForm, EditUi, KeyFacts, KeyForm,
    LayerAction, LayerForm, Macro, MacroForm, Panel, PickerForm, SheetAfter, TapHold, TapHoldForm, Vocabulary,
};
use keydviz::editing::{
    Bound, EditSession, Entry, Model, Reference, Section, SectionKind, Setting, ViewOnly,
};

fn texts(v: &[&str]) -> Vec<String> {
    v.iter().map(|s| s.to_string()).collect()
}

fn blank_ui() -> EditUi {
    EditUi {
        key: KeyForm {
            phys: String::new(),
            current: String::new(),
            value: String::new(),
            label: String::new(),
            has_label: false,
            mode: "simple".into(),
            is_macro: false,
            is_tap_hold: false,
            is_layer_action: false,
            armed: false,
        },
        tap_hold: TapHoldForm { feel: String::new(), hold: String::new(), tap: String::new() },
        action: ActionForm { kind: "momentary".into(), target: String::new() },
        chord: ChordForm {
            keys: Vec::new(),
            action: String::new(),
            orig: String::new(),
            layer_target: String::new(),
            layer_kind: "momentary".into(),
            rows: Vec::new(),
        },
        mac: MacroForm {
            steps: Vec::new(),
            rows: Vec::new(),
            text_input: String::new(),
            delay_input: String::new(),
            chord_key: String::new(),
            chord_c: false,
            chord_m: false,
            chord_a: false,
            chord_s: false,
            chord_g: false,
            repeat_on: false,
            repeat_timeout: String::new(),
            repeat_count: String::new(),
        },
        layers: LayerForm {
            layer: "main".into(),
            layers: Vec::new(),
            holds: Vec::new(),
            can_rename: false,
            rename_target: String::new(),
            rename_name: String::new(),
            new_open: false,
            new_name: String::new(),
            delete_prompt: String::new(),
            delete_detail: String::new(),
        },
        picker: PickerForm {
            open: false,
            target: String::new(),
            query: String::new(),
            results: Vec::new(),
            truncated: 0,
        },
        panel: Panel {
            on: false,
            dirty: false,
            banner: String::new(),
            warnings: String::new(),
            draft_info: String::new(),
            apply_ok: false,
            apply_hint: String::new(),
            discard_prompt: false,
            pending_kbd: -1,
            delete_config_prompt: false,
            backups_open: false,
            has_backups: false,
            board_mode: "single".into(),
            editing_global: false,
            global_rows: Vec::new(),
        },
    }
}

fn entry(key: &str, val: &str, chord: Option<&str>) -> Entry {
    Entry { key: key.into(), val: Some(val.into()), chord: chord.map(|c| c.to_string()) }
}

fn section(kind: SectionKind, base: &str, entries: Vec<Entry>) -> Section {
    let bound = entries
        .iter()
        .map(|e| Bound { key: e.key.clone(), val: e.val.clone().unwrap() })
        .collect();
    Section { kind, base: base.into(), entries, bound }
}

fn session() -> EditSession {
    EditSession {
        path: "/k/a.conf".into(),
        original: String::new(),
        model: Model {
            sections: vec![
                section(SectionKind::Main, "main", vec![entry("j+k", "esc", Some("j+k"))]),
                section(SectionKind::Layer, "nav", vec![entry("h", "left", None)]),
                section(SectionKind::Layer, "shift", Vec::new()),
                section(SectionKind::Composite, "nav+shift", Vec::new()),
            ],
            global: Some(vec![entry("macro_timeout", "600", None), entry("odd", "1", None)]),
            uses: vec![Reference { layer: "nav".into(), section: "main".into(), key: "a".into() }],
            orphans: Vec::new(),
            text: String::new(),
            edited: false,
        },
        created: false,
    }
}

fn words() -> Vec<ModWord> {
    vec![
        ModWord { letter: 'C', word: "ctrl".into() },
        ModWord { letter: 'S', word: "shift".into() },
    ]
}

fn vocab() -> Vocabulary {
    Vocabulary {
        modifiers: texts(&["control", "shift"]),
        words: words(),
        options: vec![GlobalOption {
            name: "macro_timeout".into(),
            label: "Macro timeout".into(),
            unit: "ms".into(),
            hint: "h".into(),
            boolean: false,
        }],
    }
}

fn facts(binding: Option<&str>) -> KeyFacts {
    KeyFacts { binding: binding.map(|b| b.to_string()), tap_hold: None, mac: None, label: None }
}

fn entered() -> EditUi {
    let mut u = blank_ui();
    let mut s = session();
    s.model.orphans =
        vec![Reference { layer: "sym".into(), section: "main".into(), key: "a".into() }];
    u.enter_edit_session(&s, &vocab(), true, "hint".into(), "banner".into(), false);
    u
}

#[test]
fn entering_shows_the_first_section() {
    let u = entered();
    assert!(u.panel.on && u.panel.apply_ok && !u.panel.dirty);
    assert_eq!(u.layers.layer, "main");
    assert_eq!(u.layers.layers, texts(&["main", "nav", "shift", "nav+shift"]));
    assert_eq!(u.layers.holds, texts(&["nav"]));
    assert!(!u.layers.can_rename);
    assert_eq!(u.chord.rows.len(), 1);
    assert_eq!(u.chord.rows[0].display, "j + k");
    assert_eq!(u.panel.global_rows.len(), 2);
    assert!(u.panel.warnings.contains("no [sym] layer"));
    assert_eq!((u.panel.banner.as_str(), u.panel.apply_hint.as_str()), ("banner", "hint"));
}

#[test]
fn entering_closes_the_backups() {
    let mut u = entered();
    assert!(!u.panel.has_backups);
    u.panel.backups_open = true;
    u.enter_edit_session(&session(), &vocab(), true, "hint".into(), "banner".into(), true);
    assert!(!u.panel.backups_open && u.panel.has_backups);
    u.show_backups(false);
    assert!(!u.panel.has_backups);
}

#[test]
fn a_confirmed_delete_takes_its_prompt_away() {
    let mut u = entered();
    u.panel.delete_config_prompt = true;
    u.confirm_delete_config();
    assert!(!u.panel.delete_config_prompt && u.panel.on);
}

#[test]
fn labels_and_transparency_need_a_key() {
    let mut u = entered();
    assert_eq!(u.set_label("Esc"), None);
    assert_eq!(u.clear_label(), None);
    assert_eq!(u.make_transparent(), None);
    u.select_key("a", &Some(facts(None)), &words());
    let key = || Some(KeyRequest { layer: "main".into(), key: "a".into() });
    let labelled =
        |v: &str| Some(BindRequest { layer: "main".into(), key: "a".into(), val: v.into() });
    assert_eq!(u.set_label(" My key "), labelled("My key"));
    assert_eq!(u.set_label("  "), labelled(""));
    assert_eq!(u.clear_label(), key());
    assert_eq!(u.make_transparent(), key());
}

#[test]
fn leaving_clears_the_forms() {
    let mut u = entered();
    u.select_key("a", &Some(facts(Some("b"))), &words());
    u.arm_capture();
    u.panel.dirty = true;
    u.leave();
    assert!(!u.panel.on && !u.panel.dirty && !u.key.armed);
    assert!(u.key.phys.is_empty() && u.chord.rows.is_empty() && u.panel.global_rows.is_empty());
    assert_eq!(u.panel.pending_kbd, -1);
}

#[test]
fn a_phantom_config_leaves_no_sheet() {
    let mut s = session();
    assert_eq!(exit_edit(&s, Some(2), false), SheetAfter::Reload { index: 2 });
    s.created = true;
    assert_eq!(exit_edit(&s, Some(2), false), SheetAfter::Drop { index: 2 });
    assert_eq!(exit_edit(&s, Some(2), true), SheetAfter::Reload { index: 2 });
    assert_eq!(exit_edit(&s, None, true), SheetAfter::Nothing);
}

#[test]
fn a_second_click_deselects() {
    let mut u = entered();
    u.select_key("capslock", &Some(facts(Some("esc"))), &words());
    assert_eq!((u.key.phys.as_str(), u.key.value.as_str()), ("capslock", "esc"));
    assert_eq!((u.key.mode.as_str(), u.tap_hold.tap.as_str()), ("simple", "esc"));
    u.select_key("capslock", &Some(facts(Some("esc"))), &words());
    assert!(u.key.phys.is_empty());
    u.select_key("q", &None, &words());
    assert!(u.key.phys.is_empty(), "no session, no selection");
}

#[test]
fn the_editor_fits_the_binding() {
    let mut u = entered();
    let th = TapHold {
        target: "nav".into(),
        tap: Some("f".into()),
        behavior: Some(Behavior::TypingSafe),
    };
    let f = KeyFacts {
        binding: Some("lettermod(nav, f, 150, 200)".into()),
        tap_hold: Some(th),
        mac: None,
        label: Some("Nav".into()),
    };
    u.select_key("f", &Some(f), &words());
    assert_eq!(u.key.mode, "taphold");
    assert_eq!((u.tap_hold.feel.as_str(), u.tap_hold.hold.as_str()), ("safe", "nav"));
    assert!(u.key.has_label);
    let m = Macro { steps: vec![MacroToken::Key("x".into())], repeat: Some((400, 50)) };
    let f = KeyFacts { binding: Some("macro".into()), tap_hold: None, mac: Some(m), label: None };
    u.select_key("m", &Some(f), &words());
    assert_eq!(u.key.mode, "macro");
    assert_eq!(u.mac.rows[0].display, "press x");
    assert_eq!((u.mac.repeat_timeout.as_str(), u.mac.repeat_count.as_str()), ("400", "50"));
    // A bound function is no simple remap: the tap starts as the key itself.
    u.select_key("k", &Some(facts(Some("layer(nav)"))), &words());
    assert_eq!(u.tap_hold.tap, "k");
    u.select_key("n", &Some(facts(Some("noop"))), &words());
    assert_eq!(u.tap_hold.tap, "n");
}

#[test]
fn layer_actions_are_seeded() {
    let mut u = entered();
    u.seed_layer_action(&Some(LayerAction { kind: "toggle".into(), target: "nav".into() }));
    assert!(u.key.is_layer_action);
    assert_eq!((u.action.kind.as_str(), u.action.target.as_str()), ("toggle", "nav"));
    u.seed_layer_action(&None);
    assert_eq!((u.action.kind.as_str(), u.action.target.as_str()), ("momentary", ""));
}

#[test]
fn picking_a_section_dismisses_its_prompts() {
    let mut u = entered();
    u.delete_layer("nav", &session());
    assert_eq!(u.delete_request().as_deref(), Some("nav"));
    u.select_key("h", &Some(facts(None)), &words());
    u.pick_edit_layer("nav", &None, &Some(facts(Some("left"))), &words());
    assert_eq!(u.delete_request(), None);
    assert_eq!((u.layers.layer.as_str(), u.key.value.as_str()), ("nav", "left"));
    assert!(u.layers.can_rename);
}

#[test]
fn chord_mode_toggles_members() {
    let mut u = entered();
    u.set_board_mode("chord", &Some(session().chords("main")));
    for k in ["j", "k", "l", "k"] {
        u.select_key(k, &None, &words());
    }
    assert_eq!(u.chord.keys, texts(&["j", "l"]));
    u.set_board_mode("single", &None);
    assert!(u.chord.keys.is_empty());
    let once = toggle_chord_member(&texts(&["a"]), "b");
    assert_eq!(once, texts(&["a", "b"]));
    assert_eq!(toggle_chord_member(&once, "b"), texts(&["a"]));
    assert_eq!(toggle_chord_member(&once, ""), once);
}

#[test]
fn a_chord_is_loaded_and_committed() {
    let mut u = entered();
    u.edit_chord("j+k", "j+k", &Some(session().chords("main")));
    assert_eq!(u.chord.keys, texts(&["j", "k"]));
    assert_eq!((u.chord.orig.as_str(), u.chord.action.as_str()), ("j+k", "esc"));
    assert!(drops_edited_chord("j+k", "j+k", "j+l"));
    assert!(!drops_edited_chord("j+k", "j+k", "j+k"));
    assert!(!drops_edited_chord("", "", "j+k"));
    u.commit_chord(Ok(()), &session());
    assert!(u.chord.keys.is_empty() && u.chord.orig.is_empty() && u.chord.action.is_empty());
    u.commit_removed_chord(Err("no".into()), &session());
    assert_eq!(u.panel.banner, "\u{26a0} no");
}

#[test]
fn layers_are_created_deleted_and_renamed() {
    let mut u = entered();
    u.layers.new_open = true;
    u.create_layer(Ok("nav".into()), &session(), &vocab());
    assert_eq!(u.layers.layer, "nav");
    assert!(!u.layers.new_open && u.panel.warnings.is_empty());
    u.create_layer(Err("exists".into()), &session(), &vocab());
    assert_eq!(u.panel.banner, "\u{26a0} exists");
    u.delete_layer("nav", &session());
    assert!(u.layers.delete_detail.contains("1 binding(s) still point here (a in [main])"));
    u.confirm_delete_layer(Ok(()), &session(), &vocab());
    assert_eq!(u.layers.layer, "main");
    assert_eq!(u.delete_request(), None);
    u.layers.rename_target = "nav".into();
    u.rename_layer(Ok("nav".into()), &session(), &vocab());
    assert!(u.layers.rename_target.is_empty());
    assert_eq!(
        delete_detail("nav", &Vec::new()),
        "\u{26a0} Delete [nav]? The layer and its bindings are removed."
    );
}

#[test]
fn requests_need_a_key() {
    let mut u = entered();
    assert!(u.apply_binding("b").is_none());
    assert!(u.apply_macro().is_none());
    u.select_key("a", &Some(facts(None)), &words());
    assert!(u.apply_binding("  ").is_none());
    let b = u.apply_binding(" b ").unwrap();
    assert_eq!((b.layer.as_str(), b.key.as_str(), b.val.as_str()), ("main", "a", "b"));
    assert!(u.apply_tap_hold(false).is_none(), "no target yet");
    u.tap_hold.hold = " nav ".into();
    u.tap_hold.tap = " ".into();
    let t = u.apply_tap_hold(false).unwrap();
    assert_eq!((t.target.as_str(), t.tap.as_deref()), ("nav", Some("a")));
    assert_eq!(t.feel, Some(Behavior::Responsive));
    assert_eq!(u.apply_tap_hold(true).unwrap().tap, None);
    u.commit_binding(Ok(()), "a", &facts(Some("b")), "b", &words(), &session());
    assert_eq!((u.key.current.as_str(), u.key.value.as_str()), ("b", "b"));
    u.commit_binding(Err("no".into()), "a", &facts(None), "", &words(), &session());
    assert_eq!(u.panel.banner, "\u{26a0} no");
    u.commit_label(Ok(()), &Some("L".into()), true);
    assert!(u.key.has_label && u.panel.dirty);
}

#[test]
fn a_macro_that_was_set_reseeds_only_its_own_form() {
    let mut u = entered();
    u.tap_hold.hold = "nav".into();
    u.panel.banner = "old".into();
    let mac = Macro { steps: vec![MacroToken::Key("x".into())], repeat: None };
    let f = KeyFacts { binding: None, tap_hold: None, mac: Some(mac), label: None };
    u.commit_macro(Ok(()), &f, "macro(x)", &words(), &session());
    assert!(u.key.is_macro && !u.key.armed);
    assert_eq!((u.key.current.as_str(), u.key.value.as_str()), ("macro(x)", "macro(x)"));
    assert_eq!(u.mac.rows.len(), 1);
    assert_eq!((u.tap_hold.hold.as_str(), u.panel.banner.as_str()), ("nav", ""));
    u.commit_macro(Err("no".into()), &facts(None), "", &words(), &session());
    assert_eq!(u.panel.banner, "\u{26a0} no");
}

#[test]
fn macro_steps_are_built_and_moved() {
    let mut u = entered();
    u.select_key("a", &Some(facts(None)), &words());
    assert!(u.apply_macro().unwrap().unwrap_err().contains("at least one step"));
    u.mac.text_input = "git".into();
    u.macro_add_text(&words());
    u.mac.delay_input = " 200 ".into();
    u.macro_add_delay(&words());
    u.mac.delay_input = "1024".into();
    u.macro_add_delay(&words());
    assert!(u.panel.banner.contains("under 1024"));
    u.macro_add_chord(true, &words());
    assert!(u.panel.banner.contains("pick a key"));
    u.mac.chord_key = "enter".into();
    u.mac.chord_c = true;
    u.mac.chord_s = true;
    u.macro_add_chord(false, &words());
    assert!(u.panel.banner.contains("isn\u{2019}t a key name"));
    u.macro_add_chord(true, &words());
    let shown: Vec<&str> = u.mac.rows.iter().map(|r| r.display.as_str()).collect();
    assert_eq!(shown, vec!["type \u{201c}git\u{201d}", "pause 200 ms", "ctrl+shift+enter"]);
    u.macro_move(0, 1, &words());
    assert_eq!(u.mac.rows[0].kind, "delay");
    u.macro_move(1, -1, &words());
    assert_eq!(u.mac.rows[0].kind, "text");
    u.macro_move(0, -1, &words());
    assert_eq!(u.mac.rows[0].kind, "text");
    u.macro_remove(1, &words());
    u.macro_remove(9, &words());
    assert_eq!(u.mac.steps.len(), 2);
    u.mac.repeat_on = true;
    assert!(u.apply_macro().unwrap().is_err());
    u.mac.repeat_timeout = "400".into();
    u.mac.repeat_count = " 50".into();
    assert_eq!(u.apply_macro().unwrap().unwrap().repeat, Some((400, 50)));
}

#[test]
fn a_picked_key_only_fills_its_field() {
    let mut u = entered();
    let keys = texts(&["esc", "tab", "x", "y", "z"]);
    for (target, name) in [
        ("tap", "esc"),
        ("chord_action", "tab"),
        ("macro_token", "x"),
        ("macro_chord_key", "y"),
        ("value", "z"),
    ] {
        u.open_picker(target, &keys);
        u.pick_key(name, &words());
    }
    assert_eq!(u.tap_hold.tap, "esc");
    assert_eq!(u.chord.action, "tab");
    assert_eq!(u.mac.steps, vec![MacroToken::Key("x".into())]);
    assert_eq!(u.mac.chord_key, "y");
    assert_eq!(u.key.value, "z");
    u.set_key_mode("macro");
    assert_eq!(u.key.mode, "macro");
}

#[test]
fn the_picker_opens_with_every_key_and_closes_on_a_pick() {
    let mut u = entered();
    let keys: Vec<String> = (0..90).map(|i| format!("k{i:02}")).collect();
    u.arm_capture();
    u.picker.query = "stale".into();
    u.open_picker("tap", &keys);
    assert!(u.picker.open && !u.key.armed);
    assert_eq!((u.picker.target.as_str(), u.picker.query.as_str()), ("tap", ""));
    assert_eq!((u.picker.results.len(), u.picker.truncated), (80, 10));
    u.filter_keys(&keys, "K07");
    assert_eq!((u.picker.results.clone(), u.picker.truncated), (texts(&["k07"]), 0));
    assert!(u.picker.open && u.picker.target == "tap");
    u.picker.query = "K07".into();
    u.pick_key("k07", &words());
    assert!(!u.picker.open && u.picker.query.is_empty());
    assert_eq!(u.tap_hold.tap, "k07");
}

#[test]
fn a_launch_disarms_the_capture() {
    let mut u = entered();
    u.disarm_capture();
    assert!(!u.key.armed);
    u.arm_capture();
    u.disarm_capture();
    assert!(!u.key.armed);
}

#[test]
fn the_options_form_opens_and_closes() {
    let mut u = entered();
    u.edit_global(&None, &vocab());
    assert!(!u.panel.editing_global);
    u.edit_global(&Some(session()), &vocab());
    assert!(u.panel.editing_global);
    assert_eq!(u.panel.global_rows[0].value, "600");
    assert!(!u.panel.global_rows[1].known);
    u.edit_global(&Some(session()), &vocab());
    assert!(!u.panel.editing_global);
    u.commit_global(Ok(()), &session(), &vocab());
    assert_eq!(u.panel.global_rows.len(), 2);
    let rows = global_rows_for(&vocab().options, &Vec::new());
    assert_eq!((rows.len(), rows[0].value.as_str()), (1, ""));
}

#[test]
fn unsaved_changes_are_asked_about() {
    let mut u = entered();
    assert_eq!(u.pick_keyboard(3, false, false), Leave::Free);
    assert_eq!(u.pick_keyboard(3, true, true), Leave::Refused);
    assert_eq!(u.panel.banner, "\u{26a0} apply in progress \u{2014} KEEP or revert first");
    u.panel.banner.clear();
    assert_eq!(u.toggle_edit(true, true), Leave::Refused);
    assert!(u.panel.banner.contains("apply in progress"));
    assert_eq!(u.pick_keyboard(3, true, false), Leave::Exit);
    u.panel.dirty = true;
    assert_eq!(u.pick_keyboard(3, true, false), Leave::Ask);
    assert!(u.panel.discard_prompt);
    u.cancel_discard();
    assert!(!u.panel.discard_prompt && u.panel.dirty);
    u.pick_keyboard(3, true, false);
    assert_eq!(u.confirm_discard(), Some(3));
    assert!(!u.panel.on);
    let mut u = entered();
    u.panel.dirty = true;
    assert_eq!(u.toggle_edit(true, false), Leave::Ask);
    assert_eq!(u.confirm_discard(), None);
    assert_eq!(u.open_edit(None), Open::Nothing);
    assert_eq!(u.open_edit(Some(false)), Open::Session);
    assert_eq!(u.open_edit(Some(true)), Open::ViewOnly);
    assert_eq!(u.panel.banner, "QMK-imported boards are view-only");
}

#[test]
fn a_kept_apply_keeps_the_selection() {
    let mut u = entered();
    u.select_key("a", &Some(facts(None)), &words());
    u.panel.dirty = true;
    u.reopen_after_kept(&Ok(session()), &Some("b".into()), true);
    assert_eq!((u.key.phys.as_str(), u.key.value.as_str()), ("a", "b"));
    assert!(!u.panel.dirty && u.panel.has_backups);
    u.reopen_after_kept(&Err(ViewOnly::RoundTripGate), &None, false);
    assert!(u.panel.has_backups);
    assert!(u.panel.banner.contains("couldn't reload the config after applying"));
}

#[test]
fn rows_read_well() {
    assert!(renameable("nav") && !renameable("main") && !renameable("a+b") && !renameable(""));
    let names = texts(&["main", "nav", "shift", "a+b"]);
    assert_eq!(hold_layer_choices(&names, &texts(&["shift"])), texts(&["nav"]));
    assert_eq!(mod_label(&words(), 'C'), "ctrl");
    assert_eq!(mod_label(&words(), 'X'), "?");
    let row = macro_row(&words(), &MacroToken::Delay(7));
    assert_eq!((row.kind.as_str(), row.display.as_str()), ("delay", "pause 7 ms"));
    assert_eq!(chord_members("j + k"), texts(&["j", "k"]));
    let one = vec![Setting { key: "j+k".into(), id: "j+k".into(), val: "esc".into() }];
    assert_eq!(chord_rows(&one)[0].action, "esc");
    assert_eq!(affected_line("/a", "KB", &Vec::new()), "/a \u{2014} applies to KB");
    assert_eq!(affected_line("/a", "", &texts(&["1:1", "2:2"])), "/a \u{2014} applies to 1:1, 2:2");
    assert!(affected_line("/a", "", &Vec::new()).contains("no matching keyboard"));
    for b in [None, Some(Behavior::Responsive), Some(Behavior::TypingSafe)] {
        assert_eq!(feel_from_str(&feel_str(b)), b);
    }
}
