//! The viewer: devices, detection, the live view, the picker, and what is drawn.

use keydviz::boards::{
    choose_board, is_active, lit_picks, render_board, reselect, stack_titles, stamp_chord_picks,
    switch_keyboard, topmost_title,
};
use keydviz::create::{
    check_new_name, config_path, create_config_dir, create_scan, first_choice, governed_line,
    is_create_candidate, name_taken_text, new_banner, sanitize_config_name,
};
use keydviz::detect::{
    choose_source, conf_files_in, config_args, flag_value, format_id_conflicts, gather_sheets, list_line,
    qmk_config, qmk_detection, rescan, ConfigIds, DeviceEntry, FileRead, Found, IdConflict,
    Imported, Source,
};
use keydviz::devices::{governing_config, has_key, parse_devices, Connected, InputDevice, MatchKind};
use keydviz::glow::{
    demo_layers, demo_step, emitted, glow_changed, handle_key_event, helper_connected,
    helper_event, listen_update, monitor_connected, resolve_glow, stamp_glow, BoardTag, GlowState,
    KeyContext, KeyOutcome, LiveUi, MIN_GLOW,
};
use keydviz::helper::{live_source, resolve_socket, LiveSource};
use keydviz::layer::{listen_state, ListenEvent};
use keydviz::monitor::{next_press_state, KeyAction, KeyEvent, Press};
use keydviz::names::valid_name;
use keydviz::order::sort;
use keydviz::paths::{file_name_of, is_same_path, join_path, target_of};
use keydviz::picker::{picker_source, rank_keys, rank_lowered};
use keydviz::prefs::{config_home, load, save, store_path};
use keydviz::probe::{read_keys, read_version, CommandOutput, KeydProbe, ProbeInput};
use keydviz::sheets::{
    devices_changed, geometry_id, layout_choice, pick_layout, sheet_label, Watch,
};
use keydviz::snapshot::{
    drive_render_state, flatten, render_delay, render_line, report, save_snapshot, Act, Pixel,
};
use keydviz::tray::{tooltip, TrayHandle};
use keydviz::ui_data::{
    board_accent, hex, id_matches, to_keycap, to_sheet_data, Badge, KeyCap, KeyState, Rgb,
};

fn texts(v: &[&str]) -> Vec<String> {
    v.iter().map(|s| s.to_string()).collect()
}

// ---------------------------------------------------------------------------
// Devices
// ---------------------------------------------------------------------------

#[test]
fn a_key_code_is_a_bit_counted_from_the_last_word() {
    let words: Vec<u64> = vec![1 << 2, 1 << 63 | 1];
    for code in [0, 63, 66] {
        assert!(has_key(&words, code), "{code}");
    }
    for code in [1, 62, 64, 65, 67, 128, 1000] {
        assert!(!has_key(&words, code), "{code}");
    }
    assert!(!has_key(&Vec::new(), 0));
    // A leading word of zeros says nothing.
    assert!(has_key(&vec![0, 1 << 2, 1], 66) && !has_key(&vec![0, 1 << 2, 1], 130));
}

// Low word with KEY_1..KEY_0 (bits 2-11) and KEY_Q..KEY_Y (bits 16-21) set.
const FULL_KB_LOW: &str = "3f0ffc";

#[test]
fn classifies_full_keyboard() {
    let text = format!(
        "I: Bus=0003 Vendor=04fe Product=0021 Version=0111\n\
         N: Name=\"PFU HHKB\"\n\
         H: Handlers=sysrq kbd event3\n\
         B: KEY={FULL_KB_LOW}\n"
    );
    let devs = parse_devices(&text);
    assert_eq!(devs.len(), 1);
    assert_eq!(devs[0].devid(), "04fe:0021");
    assert_eq!(devs[0].name, "PFU HHKB");
    assert!(devs[0].is_keyboard);
    assert!(devs[0].full_keyboard);
}

#[test]
fn power_button_is_not_a_keyboard() {
    // Only a high-ish bit set, none of the alphanumeric keys, no media keys.
    let text = "I: Bus=0019 Vendor=0000 Product=0001 Version=0000\n\
                N: Name=\"Power Button\"\n\
                B: KEY=10000000000000\n";
    let devs = parse_devices(text);
    assert_eq!(devs.len(), 1);
    assert!(!devs[0].is_keyboard);
    assert!(!devs[0].full_keyboard);
}

#[test]
fn media_key_device_counts_as_keyboard_but_not_full() {
    // KEY_VOLUMEUP = 115 -> group 1, bit 51. Two words: [high, low].
    let text = "I: Bus=0003 Vendor=1234 Product=5678 Version=0001\n\
                N: Name=\"Laptop Hotkeys\"\n\
                B: KEY=8000000000000 0\n";
    let devs = parse_devices(text);
    assert_eq!(devs.len(), 1);
    assert!(devs[0].is_keyboard, "media-key device should count as keyboard");
    assert!(!devs[0].full_keyboard);
}

#[test]
fn joined_lists_are_read_apart() {
    let a = format!("I: Vendor=04fe Product=0021\r\nB: KEY=0 0 {FULL_KB_LOW}\r");
    let b = "N: Name=\"B\"\nI: Vendor=046d Product=c52b";
    let devs = parse_devices(&format!("{a}\n\n{b}"));
    let ids: Vec<String> = devs.iter().map(|d| d.devid()).collect();
    assert_eq!(ids, vec!["04fe:0021".to_string(), "046d:c52b".to_string()]);
    // Words of zeros in front make no difference.
    assert!(devs[0].full_keyboard && !devs[1].full_keyboard);
    assert_eq!((devs[0].name.as_str(), devs[1].name.as_str()), ("", "B"));
}

#[test]
fn configs_come_from_arguments_then_live_then_examples() {
    let args = |v: &[&str]| -> Vec<String> { v.iter().map(|s| s.to_string()).collect() };
    assert_eq!(choose_source(&args(&["--layout", "x", "a.conf"]), 3), Source::Args);
    assert_eq!(choose_source(&args(&["--layout", "x"]), 3), Source::Live);
    assert_eq!(choose_source(&args(&["--demo"]), 0), Source::Examples);
}

#[test]
fn picks_are_lit_only_while_a_chord_is_built() {
    let v = |v: &[&str]| -> Vec<String> { v.iter().map(|s| s.to_string()).collect() };
    let (phys, picks) = (v(&["j", "", "k"]), v(&["k", ""]));
    assert_eq!(lit_picks(&phys, &picks, true, "chord"), vec![false, false, true]);
    assert_eq!(lit_picks(&phys, &picks, false, "chord"), vec![false; 3]);
    assert_eq!(lit_picks(&phys, &picks, true, "single"), vec![false; 3]);
}

#[test]
fn parses_multiple_blocks() {
    let text = format!(
        "I: Bus=0003 Vendor=04fe Product=0021\n\
         N: Name=\"KB\"\n\
         B: KEY={FULL_KB_LOW}\n\
         \n\
         I: Bus=0003 Vendor=046d Product=c52b\n\
         N: Name=\"Mouse\"\n\
         B: KEY=0\n"
    );
    let devs = parse_devices(&text);
    assert_eq!(devs.len(), 2);
    assert!(devs[0].is_keyboard);
    assert!(!devs[1].is_keyboard);
}

#[test]
fn the_most_specific_config_governs() {
    let k = vec![MatchKind::NoMatch, MatchKind::Wildcard, MatchKind::Explicit, MatchKind::Explicit];
    let found = governing_config(&k).unwrap();
    assert_eq!(k[found], MatchKind::Explicit);
    assert_eq!(governing_config(&vec![MatchKind::NoMatch]), None);
    assert!(MatchKind::Explicit.rank() > MatchKind::Wildcard.rank());
}

// ---------------------------------------------------------------------------
// Creating configs
// ---------------------------------------------------------------------------

fn dev(vendor: &str, full: bool) -> InputDevice {
    InputDevice {
        name: "x".into(),
        vendor: vendor.into(),
        product: "0001".into(),
        is_keyboard: true,
        full_keyboard: full,
    }
}

#[test]
fn create_candidate_filter_keeps_only_real_keyboards() {
    // A real external keyboard: full key block, no pointer axes.
    assert!(is_create_candidate(&dev("04fe", true), false));
    // keyd's own virtual keyboard: never offer it.
    assert!(!is_create_candidate(&dev("0fac", true), false));
    // Media-key pseudo-devices lack the full alphanumeric block.
    assert!(!is_create_candidate(&dev("0000", false), false));
    // A mouse with a keyboard interface, and a keyboard+touchpad combo: both report
    // pointer motion.
    assert!(!is_create_candidate(&dev("046d", true), true));
    assert!(!is_create_candidate(&dev("0b05", true), true));
}

#[test]
fn sanitizes_device_names_to_the_allow_list() {
    assert_eq!(sanitize_config_name("PFU HHKB"), "pfu-hhkb");
    assert_eq!(sanitize_config_name("ASUS ROG Zephyrus G14"), "asus-rog-zephyrus-g14");
    // Leading/trailing junk trimmed; runs of symbols collapse to one dash.
    assert_eq!(sanitize_config_name("  ::Keychron K2:: "), "keychron-k2");
    assert_eq!(sanitize_config_name("My_Board-2"), "my_board-2");
    // Every result is a name the apply tool would accept.
    for n in ["PFU HHKB", "  ::Keychron K2:: ", "My_Board-2", ""] {
        let s = sanitize_config_name(n);
        assert!(valid_name(&s), "{n:?} -> {s:?} should be valid");
    }
}

#[test]
fn falls_back_when_nothing_usable_survives() {
    assert_eq!(sanitize_config_name(""), "keyboard");
    assert_eq!(sanitize_config_name("!!! ###"), "keyboard");
}

#[test]
fn governed_explainer_line() {
    assert_eq!(governed_line(&Vec::new()), "");
    let one = governed_line(&vec!["PFU HHKB".to_string()]);
    assert!(one.contains("edit from the chooser above"));
    assert!(one.contains("PFU HHKB"));
    // Capped at 4 with a "+N more" tail.
    let many: Vec<String> = (0..6).map(|i| format!("kbd{i}")).collect();
    let line = governed_line(&many);
    assert!(line.contains("kbd0") && line.contains("kbd3"));
    assert!(!line.contains("kbd4"));
    assert!(line.contains("(+2 more)"));
}

#[test]
fn caps_at_64_and_stays_valid() {
    let long = "a".repeat(200);
    let s = sanitize_config_name(&long);
    assert_eq!(s.len(), 64);
    assert!(valid_name(&s));
}

fn plugged(name: &str, vendor: &str, kinds: Vec<MatchKind>) -> Connected {
    Connected {
        dev: InputDevice {
            name: name.into(),
            vendor: vendor.into(),
            product: "0001".into(),
            is_keyboard: true,
            full_keyboard: true,
        },
        pointer: false,
        kinds,
    }
}

#[test]
fn only_ungoverned_keyboards_are_offered() {
    let all = vec![
        plugged("One", "aaaa", vec![MatchKind::Explicit]),
        plugged("Two", "bbbb", vec![MatchKind::Wildcard]),
        plugged("Three", "0fac", vec![MatchKind::NoMatch]),
    ];
    let scan = create_scan(&all);
    let ids: Vec<&str> = scan.candidates.iter().map(|c| c.devid.as_str()).collect();
    assert_eq!(ids, vec!["bbbb:0001"]);
    assert_eq!(scan.candidates[0].suggested, "two");
    assert_eq!(scan.already_configured.len(), 1);
    assert_eq!(first_choice(&scan.candidates), ("bbbb:0001".to_string(), "two".to_string()));
    assert_eq!(first_choice(&Vec::new()), ("*".to_string(), "default".to_string()));
}

#[test]
fn a_new_config_needs_an_id_and_a_name() {
    assert!(check_new_name("", "x").is_err());
    assert!(check_new_name("*", "a b").unwrap_err().contains("letters"));
    assert_eq!(check_new_name("*", " mine "), Ok("mine".to_string()));
    assert_eq!(config_path("/etc/keyd", "mine"), "/etc/keyd/mine.conf");
    assert!(name_taken_text("mine").starts_with("mine.conf already exists"));
    assert_eq!(create_config_dir(&None), "/etc/keyd");
    assert!(new_banner("*", &None).contains("all keyboards"));
    assert!(new_banner("a:b", &Some("KB".into())).ends_with("applies to KB (a:b)"));
    assert!(new_banner("a:b", &None).ends_with("applies to a:b"));
}

// ---------------------------------------------------------------------------
// Detection
// ---------------------------------------------------------------------------

/// The collisions among `[ids]` blocks: ids that two or more configs claim alike.
fn conflicts(files: &[(&str, &str)]) -> Vec<String> {
    let mut found: Vec<IdConflict> = Vec::new();
    for (i, (_, id)) in files.iter().enumerate() {
        let same: Vec<usize> =
            (0..files.len()).filter(|j| files[*j].1 == *id).collect();
        if same.len() > 1 && same[0] == i {
            let kind = if *id == "*" { MatchKind::Wildcard } else { MatchKind::Explicit };
            found.push(IdConflict { id: id.to_string(), kind, configs: same });
        }
    }
    let names: Vec<String> = files.iter().map(|(n, _)| n.to_string()).collect();
    format_id_conflicts(&names, &found)
}

#[test]
fn names_the_files_and_the_contested_id() {
    let w = conflicts(&[("/etc/keyd/a.conf", "04fe:0021"), ("/etc/keyd/b.conf", "04fe:0021")]);
    assert_eq!(w.len(), 1);
    assert!(w[0].contains("a.conf and b.conf"), "{}", w[0]);
    assert!(w[0].contains("device id 04fe:0021"), "{}", w[0]);
    assert!(w[0].contains("file order"), "{}", w[0]);
}

#[test]
fn wildcard_clash_phrasing() {
    let w = conflicts(&[("a.conf", "*"), ("b.conf", "04fe:0021"), ("c.conf", "*")]);
    assert_eq!(w.len(), 1);
    assert!(w[0].contains("a.conf and c.conf"), "{}", w[0]);
    assert!(w[0].contains("wildcard"), "{}", w[0]);
}

#[test]
fn clean_config_set_warns_nothing() {
    assert!(conflicts(&[("hhkb.conf", "04fe:0021"), ("default.conf", "*")]).is_empty());
}

#[test]
fn three_way_clash_joins_with_commas() {
    let w = conflicts(&[("a.conf", "aa:bb"), ("b.conf", "aa:bb"), ("c.conf", "aa:bb")]);
    assert_eq!(w.len(), 1);
    assert!(w[0].contains("a.conf, b.conf and c.conf"), "{}", w[0]);
}

#[test]
fn out_of_range_index_degrades_gracefully() {
    let names = texts(&["a.conf"]);
    let bogus =
        vec![IdConflict { id: "x".into(), kind: MatchKind::Explicit, configs: vec![0, 9] }];
    let w = format_id_conflicts(&names, &bogus);
    assert!(w[0].contains("a.conf and (unknown)"), "{}", w[0]);
}

#[test]
fn sheets_follow_the_connected_keyboards() {
    let configs = || vec![ConfigIds { wildcard: false }, ConfigIds { wildcard: true }];
    let devices = || {
        vec![
            plugged("One", "aaaa", vec![MatchKind::Explicit, MatchKind::Wildcard]),
            plugged("Two", "bbbb", vec![MatchKind::NoMatch, MatchKind::Wildcard]),
        ]
    };
    let d = gather_sheets(Found::Live {
        configs: configs(),
        devices: devices(),
        warnings: Vec::new(),
    });
    assert!(d.live_devices);
    assert_eq!(d.srcs.len(), 2);
    assert_eq!(d.srcs[0].matched_ids, texts(&["aaaa:0001"]));
    let (sheets, map) = rescan(&configs(), &devices());
    assert_eq!(sheets[0].device, "One");
    assert_eq!(map[0], DeviceEntry { devid: "aaaa:0001".into(), sheet: 0 });
    assert!(!gather_sheets(Found::Args(2)).live_devices);
    assert_eq!(gather_sheets(Found::Args(2)).srcs.len(), 2);
}

#[test]
fn arguments_and_files_are_told_apart() {
    let args = texts(&["--layout", "ansi60", "x.conf"]);
    assert_eq!(flag_value(&args, "--layout"), Some("ansi60".to_string()));
    assert_eq!(flag_value(&args, "--render"), None);
    assert!(config_args(&args).contains(&"x.conf".to_string()));
    assert_eq!(qmk_config(&args), Some("x.conf".to_string()));
    let names = texts(&["/k/b.conf", "/k/a.conf", "/k/readme"]);
    assert_eq!(conf_files_in(&names), texts(&["/k/a.conf", "/k/b.conf"]));
    assert_eq!(sort(&texts(&["b", "a", "ab"])), texts(&["a", "ab", "b"]));
    assert_eq!(list_line("a", "/k/a.conf", ""), "  a [/k/a.conf]");
    assert_eq!(list_line("a", "/k/a.conf", "KB"), "  a [/k/a.conf]  <- KB");
}

fn read(path: &str, error: Option<&str>) -> FileRead {
    FileRead { path: path.into(), error: error.map(|e| e.to_string()) }
}

#[test]
fn an_imported_board_reports_the_first_thing_that_failed() {
    let imp = || Ok(Imported { layout: "LAYOUT".into(), keys: 60, unmapped: 2 });
    let s = qmk_detection(&read("i.json", None), &None, imp(), &None).unwrap();
    assert_eq!(s.source, "(no config)");
    assert_eq!(s.profile, "QMK \u{b7} LAYOUT");
    assert_eq!(s.subtitle, "QMK import: LAYOUT (60 keys) \u{2014} 2 slot(s) unmapped");
    let r = qmk_detection(&read("i.json", Some("gone")), &None, Err("x".into()), &None);
    assert_eq!(r, Err("i.json: gone".to_string()));
    let k = Some(read("k.json", Some("bad")));
    let r = qmk_detection(&read("i.json", None), &k, Err("x".into()), &None);
    assert_eq!(r, Err("k.json: bad".to_string()));
    let r = qmk_detection(&read("i.json", None), &None, Err("x".into()), &None);
    assert_eq!(r, Err("x".to_string()));
    let c = Some(read("c.conf", Some("no")));
    let r = qmk_detection(&read("i.json", None), &None, imp(), &c);
    assert_eq!(r, Err("c.conf: no".to_string()));
}

// ---------------------------------------------------------------------------
// The glow
// ---------------------------------------------------------------------------

#[test]
fn chord_cap_suppresses_its_subsets() {
    let sets = vec![texts(&["leftcontrol", "left"]), texts(&["leftcontrol"]), texts(&["left"])];
    let emph = vec![true, false, true];
    let glow = resolve_glow(&sets, &emph, &texts(&["leftcontrol", "left"]));
    assert_eq!(glow, vec![true, false, false], "only the n chord cap glows");
}

#[test]
fn plain_ctrl_still_glows_alone() {
    let sets = vec![texts(&["leftcontrol", "left"]), texts(&["leftcontrol"]), texts(&["left"])];
    let emph = vec![true, false, true];
    let glow = resolve_glow(&sets, &emph, &texts(&["leftcontrol"]));
    assert_eq!(glow, vec![false, true, false]);
}

#[test]
fn emphasized_twin_wins_over_passthrough() {
    let sets = vec![texts(&["4"]), texts(&["4"])];
    let emph = vec![true, false];
    let glow = resolve_glow(&sets, &emph, &texts(&["4"]));
    assert_eq!(glow, vec![true, false]);
}

#[test]
fn shifted_symbol_chord_suppresses_digit_and_shift() {
    let sets = vec![texts(&["leftshift", "9"]), texts(&["leftshift"]), texts(&["9"])];
    let emph = vec![true, false, false];
    let glow = resolve_glow(&sets, &emph, &texts(&["leftshift", "9"]));
    assert_eq!(glow, vec![true, false, false]);
}

#[test]
fn empty_set_never_glows() {
    let sets = vec![Vec::new(), texts(&["a"])];
    let emph = vec![false, false];
    let glow = resolve_glow(&sets, &emph, &texts(&["a"]));
    assert_eq!(glow, vec![false, true]);
}

#[test]
fn a_cap_emits_the_keys_of_its_chord() {
    assert_eq!(emitted("leftcontrol+left"), texts(&["leftcontrol", "left"]));
    assert!(emitted("").is_empty());
    let keys = texts(&["leftshift+9", "9"]);
    let glow = stamp_glow(&keys, &vec![true, false], &texts(&["9", "leftshift"]));
    assert_eq!(glow, vec![true, false]);
}

fn press(devid: &str, key: &str, action: KeyAction) -> KeyEvent {
    KeyEvent { devid: devid.into(), device: "kb".into(), key: key.into(), action }
}

fn entry(devid: &str, sheet: i32) -> DeviceEntry {
    DeviceEntry { devid: devid.into(), sheet }
}

#[test]
fn unmapped_device_glows_on_active_sheet() {
    let map = vec![entry("04fe:0021", 0)];
    assert_eq!(
        next_press_state(&press("0fac:0ade", "a", KeyAction::Down), &map, 0, &Vec::new()),
        Press { switch_to: None, pressed: texts(&["a"]) }
    );
}

#[test]
fn down_up_maintains_pressed_set() {
    let map = vec![entry("1:1", 0)];
    let a = next_press_state(&press("1:1", "a", KeyAction::Down), &map, 0, &Vec::new());
    assert_eq!(a, Press { switch_to: None, pressed: texts(&["a"]) });
    let b = next_press_state(&press("1:1", "b", KeyAction::Down), &map, 0, &texts(&["a"]));
    assert_eq!(b, Press { switch_to: None, pressed: texts(&["a", "b"]) });
    let r = next_press_state(&press("1:1", "a", KeyAction::Repeat), &map, 0, &texts(&["a", "b"]));
    assert_eq!(r, Press { switch_to: None, pressed: texts(&["a", "b"]) });
    let u = next_press_state(&press("1:1", "a", KeyAction::Up), &map, 0, &texts(&["a", "b"]));
    assert_eq!(u, Press { switch_to: None, pressed: texts(&["b"]) });
}

#[test]
fn mapped_keyboard_switches_view() {
    let map = vec![entry("aa:aa", 0), entry("bb:bb", 1)];
    let out = next_press_state(&press("bb:bb", "j", KeyAction::Down), &map, 0, &texts(&["a"]));
    assert_eq!(out, Press { switch_to: Some(1), pressed: texts(&["j"]) });
}

#[test]
fn a_quick_tap_stays_lit_for_a_moment() {
    let c = KeyContext { edit_mode: false, capture_armed: false, active: 0, sheets: 1 };
    let map = vec![entry("1:1", 0)];
    let (g, out) =
        handle_key_event(GlowState::new(), &press("1:1", "a", KeyAction::Down), &map, c, 0);
    assert!(matches!(&out, KeyOutcome::Lit { pressed, .. } if *pressed == texts(&["a"])));
    let (mut g, _) = handle_key_event(g, &press("1:1", "a", KeyAction::Up), &map, c, 1);
    assert_eq!(g.glow_set(2), texts(&["a"]));
    assert!(g.glow_set(MIN_GLOW + 2).is_empty());
    assert_eq!(glow_changed(&texts(&["a"]), &texts(&["a"])), None);
    assert_eq!(glow_changed(&Vec::new(), &texts(&["a"])), Some(Vec::new()));
}

#[test]
fn an_armed_capture_takes_the_key() {
    let c = KeyContext { edit_mode: true, capture_armed: true, active: 0, sheets: 1 };
    let (_, out) =
        handle_key_event(GlowState::new(), &press("1:1", "q", KeyAction::Down), &Vec::new(), c, 0);
    assert!(matches!(out, KeyOutcome::Captured(k) if k == "q"));
}

#[test]
fn the_live_pills_follow_their_sources() {
    let ui = LiveUi { live_connected: false, keys_connected: false, stack: Vec::new() };
    let (ui, _) = helper_connected(ui, true);
    let (ui, _) = helper_event(ui, Some(texts(&["nav"])), false);
    assert_eq!(ui.stack, texts(&["nav"]));
    let (ui, _) = helper_event(ui, None, true);
    let (ui, _) = monitor_connected(ui, false);
    assert!(!ui.keys_connected);
    let ui = listen_update(ui, listen_state(ListenEvent::Layers(texts(&["sym"]))));
    assert_eq!(ui.stack, texts(&["sym"]));
    let ui = listen_update(ui, listen_state(ListenEvent::Ended));
    assert!(!ui.live_connected);
}

#[test]
fn the_demo_walks_through_the_layers() {
    let boards = vec![
        BoardTag { is_base: true, title: "BASE".into() },
        BoardTag { is_base: false, title: "NAV".into() },
        BoardTag { is_base: false, title: "NAV".into() },
    ];
    let layers = demo_layers(&boards);
    assert_eq!(layers, texts(&["NAV"]));
    let (first, key) = demo_step(&layers, 0);
    assert_eq!(first, None);
    assert!(!key.is_empty());
}

// ---------------------------------------------------------------------------
// Boards and sheets
// ---------------------------------------------------------------------------

fn tags() -> Vec<BoardTag> {
    vec![
        BoardTag { is_base: false, title: "NAV".into() },
        BoardTag { is_base: true, title: "BASE".into() },
        BoardTag { is_base: false, title: "SYM".into() },
    ]
}

#[test]
fn the_topmost_layer_with_a_board_is_shown() {
    let b = tags();
    let r = render_board(&b, &texts(&["sym", "nav", "control"]), false, "");
    assert_eq!((r.active_layer.as_str(), r.board), ("NAV", Some(0)));
    let r = render_board(&b, &texts(&["control"]), false, "");
    assert_eq!((r.active_layer.as_str(), r.board), ("", Some(1)));
    assert_eq!(topmost_title(&b, &texts(&["SYM", "X"])), "SYM");
    assert_eq!(stack_titles(&texts(&["nav", "\u{e4}"])), texts(&["NAV", "\u{c4}"]));
}

#[test]
fn editing_freezes_the_board() {
    let b = tags();
    let r = render_board(&b, &texts(&["nav"]), true, "sym");
    assert_eq!((r.active_layer.as_str(), r.board), ("NAV", Some(2)));
    let r = render_board(&b, &texts(&["nav"]), true, "main");
    assert_eq!(r.board, Some(1));
    let r = render_board(&b, &texts(&["nav"]), true, "gone");
    assert_eq!(r.board, Some(1));
    assert_eq!(choose_board(&Vec::new(), ""), None);
    assert_eq!(render_board(&Vec::new(), &Vec::new(), false, "").board, None);
}

#[test]
fn keyboards_are_switched_within_range() {
    assert_eq!(switch_keyboard(1, 2), Some(1));
    assert_eq!(switch_keyboard(2, 2), None);
    assert_eq!(switch_keyboard(-1, 2), None);
    assert!(is_active(-1, 0) && is_active(1, 1) && !is_active(1, 0));
    assert_eq!(reselect(2, 2), Some(1));
    assert_eq!(reselect(0, 2), Some(0));
    assert_eq!(reselect(0, 0), None);
    let picks = stamp_chord_picks(&texts(&["j", "", "k"]), &texts(&["k", ""]));
    assert_eq!(picks, vec![false, false, true]);
}

#[test]
fn layouts_are_chosen_in_order() {
    let forced = Some("iso60".to_string());
    let saved = Some("hhkb".to_string());
    assert_eq!(layout_choice(&forced, true, &saved, "ansi60"), "iso60");
    assert_eq!(layout_choice(&forced, false, &saved, "ansi60"), "hhkb");
    assert_eq!(layout_choice(&None, false, &None, "ansi60"), "ansi60");
    let l = sheet_label(&Some("QMK".into()), "hhkb", &None);
    assert_eq!((l.profile.as_str(), l.layout_id.as_str()), ("QMK", ""));
    let l = sheet_label(&None, "hhkb", &Some("HHKB".into()));
    assert_eq!((l.profile.as_str(), l.layout_id.as_str()), ("HHKB", "hhkb"));
    assert_eq!(sheet_label(&None, "x", &None).profile, "ANSI 60%");
    assert_eq!(geometry_id("x", false), "ansi60");
    assert_eq!(geometry_id("x", true), "x");
    assert_eq!(pick_layout(-1, &vec![false, true]), Some(0));
    assert_eq!(pick_layout(1, &vec![false, true]), None);
    assert_eq!(pick_layout(2, &vec![false, true]), None);
}

#[test]
fn a_changed_config_is_read_once() {
    let mut w = Watch::new();
    w.note("/k/a.conf", Some(1));
    assert!(!w.tick("/k/a.conf", &None, Some(1)), "unchanged");
    assert!(!w.tick("/k/a.conf", &None, None), "in the middle of a save");
    assert!(!w.tick("/k/a.conf", &Some("/k//a.conf".into()), Some(2)), "being edited");
    assert!(w.tick("/k/a.conf", &None, Some(2)));
    assert!(!w.tick("/k/a.conf", &None, Some(2)));
    assert!(w.tick("/k/b.conf", &None, Some(1)), "new to the list");
    assert_eq!(w.seen.len(), 2);
}

#[test]
fn device_order_does_not_matter() {
    let a = vec![entry("1:1", 0), entry("2:2", 1)];
    let b = vec![entry("2:2", 1), entry("1:1", 0)];
    assert!(!devices_changed(&a, &b));
    assert!(devices_changed(&a, &vec![entry("2:2", 1)]));
    assert!(devices_changed(&vec![entry("2:2", 1)], &a));
    assert!(devices_changed(&a, &vec![entry("2:2", 1), entry("1:1", 1)]));
}

// ---------------------------------------------------------------------------
// Sockets, prefs, paths
// ---------------------------------------------------------------------------

#[test]
fn socket_path_precedence() {
    // explicit override wins
    assert_eq!(resolve_socket(Some("/tmp/x.sock"), Some("/run/user/1000")), "/tmp/x.sock");
    // else XDG_RUNTIME_DIR
    assert_eq!(resolve_socket(None, Some("/run/user/1000")), "/run/user/1000/keyd-viz.sock");
    // empty values are ignored, fall through to the system default
    assert_eq!(resolve_socket(Some(""), Some("")), "/run/keyd-viz.sock");
    assert_eq!(resolve_socket(None, None), "/run/keyd-viz.sock");
}

#[test]
fn the_live_source_prefers_the_helper() {
    assert_eq!(live_source(true, true, true, true), LiveSource::Demo);
    assert_eq!(live_source(false, true, false, false), LiveSource::Helper);
    assert_eq!(live_source(false, false, true, false), LiveSource::Helper);
    assert_eq!(live_source(false, false, false, true), LiveSource::Helper);
    assert_eq!(live_source(false, false, false, false), LiveSource::Keyd);
}

#[test]
fn a_layout_choice_is_read_back() {
    let one = save("", "/k/a.conf", "hhkb");
    let two = save(&one, "/k/b.conf", "iso60");
    assert_eq!(load(&two, "/k/a.conf"), Some("hhkb".to_string()));
    assert_eq!(load(&two, "/k/b.conf"), Some("iso60".to_string()));
    let three = save(&two, "/k/a.conf", "ansi60");
    assert_eq!(load(&three, "/k/a.conf"), Some("ansi60".to_string()));
    assert_eq!(load(&three, "/k/c.conf"), None);
    assert_eq!(config_home(&None, &Some("/h".into())), Some("/h/.config".to_string()));
    assert_eq!(config_home(&Some("/x".into()), &None), Some("/x".to_string()));
    assert_eq!(config_home(&None, &None), None);
    assert_eq!(store_path("/x"), "/x/keyd-viz/layouts.tsv");
}

#[test]
fn paths_are_compared_by_their_components() {
    assert!(is_same_path("/k//a.conf", "/k/./a.conf"));
    assert!(!is_same_path("/k/a.conf", "k/a.conf"));
    assert_eq!(join_path("/k", "a"), "/k/a");
    assert_eq!(join_path("/k", "/a"), "/a");
    assert_eq!(file_name_of("/k/a.conf"), Some("a.conf".to_string()));
    assert_eq!(file_name_of("/"), None);
    assert_eq!(target_of("/k/a.conf", "/k"), Some("a".to_string()));
}

// ---------------------------------------------------------------------------
// The picker
// ---------------------------------------------------------------------------

#[test]
fn exact_match_ranks_first() {
    let keys = texts(&["escape", "esc", "noesc"]);
    let (res, trunc) = rank_keys(&keys, "esc", 10);
    assert_eq!(res[0], "esc");
    assert_eq!(trunc, 0);
}

#[test]
fn prefix_beats_substring() {
    let keys = texts(&["volumeup", "volumedown", "kpequalvol"]);
    let (res, _) = rank_keys(&keys, "vol", 10);
    assert_eq!(res, texts(&["volumeup", "volumedown", "kpequalvol"]));
}

#[test]
fn case_insensitive() {
    let keys = texts(&["VolumeUp", "esc"]);
    let (res, _) = rank_keys(&keys, "VOL", 10);
    assert_eq!(res, texts(&["VolumeUp"]));
}

#[test]
fn cap_applied_after_ranking_with_truncated_count() {
    let keys = texts(&["kp1", "kp2", "kp3", "kp4"]);
    let (res, trunc) = rank_keys(&keys, "kp", 2);
    assert_eq!(res, texts(&["kp1", "kp2"]));
    assert_eq!(trunc, 2);
}

#[test]
fn empty_query_returns_capped_vocabulary_in_order() {
    let keys = texts(&["esc", "1", "2", "3"]);
    let (res, trunc) = rank_keys(&keys, "", 2);
    assert_eq!(res, texts(&["esc", "1"]));
    assert_eq!(trunc, 2);
}

#[test]
fn whitespace_only_query_is_treated_as_empty() {
    let keys = texts(&["esc", "tab"]);
    let (res, _) = rank_keys(&keys, "   ", 10);
    assert_eq!(res, texts(&["esc", "tab"]));
}

#[test]
fn no_match_yields_empty() {
    let keys = texts(&["esc", "tab"]);
    let (res, trunc) = rank_keys(&keys, "zzz", 10);
    assert!(res.is_empty());
    assert_eq!(trunc, 0);
}

#[test]
fn the_picker_says_where_its_keys_come_from() {
    assert_eq!(picker_source(0), "built-in list");
    assert_eq!(picker_source(300), "keyd list-keys (300)");
    let (res, _) = rank_lowered(&texts(&["esc"]), "es", 10);
    assert_eq!(res, texts(&["esc"]));
}

// ---------------------------------------------------------------------------
// The probe
// ---------------------------------------------------------------------------

fn out(success: bool, stdout: &[u8]) -> Option<CommandOutput> {
    Some(CommandOutput { success, stdout: stdout.to_vec() })
}

#[test]
fn probe_matches_environment() {
    let with = KeydProbe::run(&ProbeInput {
        version: out(true, b"keyd v2.5.0\n"),
        check: true,
        keys: out(true, b"esc\n 1 \n\n2\n"),
        sockets: vec![false, true],
    });
    assert!(with.version.is_some());
    assert!(with.check);
    assert!(with.keys.iter().any(|k| k == "esc"));
    assert_eq!(with.keys, texts(&["esc", "1", "2"]));
    assert_eq!(with.socket.as_deref(), Some("/var/run/keyd.socket"));
    let without = KeydProbe::run(&ProbeInput {
        version: None,
        check: false,
        keys: None,
        sockets: vec![false, false],
    });
    assert_eq!(without, KeydProbe::default());
}

#[test]
fn summary_is_one_line() {
    let probe = KeydProbe::run(&ProbeInput {
        version: out(true, b"keyd v2.5.0\n"),
        check: true,
        keys: out(true, b"esc\n"),
        sockets: vec![true],
    });
    assert!(!probe.summary().contains('\n'));
    assert!(!KeydProbe::default().summary().contains('\n'));
    assert!(KeydProbe::default().summary().contains("(no keyd in PATH)"));
}

#[test]
fn a_failed_command_tells_nothing() {
    let p = KeydProbe::run(&ProbeInput {
        version: out(false, b"keyd v2.5.0\n"),
        check: false,
        keys: out(false, b"esc\n"),
        sockets: Vec::new(),
    });
    assert_eq!(p, KeydProbe::default());
    assert_eq!(read_version(" \n"), None);
    assert_eq!(read_version(" v2 \n"), Some("v2".to_string()));
    assert_eq!(read_keys("a\n\n b"), texts(&["a", "b"]));
}

// ---------------------------------------------------------------------------
// The tray
// ---------------------------------------------------------------------------

#[test]
fn bursts_of_layers_show_as_one() {
    let mut t = TrayHandle::new();
    assert_eq!(t.latest(), None);
    t.set_layer("NAV");
    t.set_layer("SYM");
    assert_eq!(t.latest(), Some("SYM".to_string()));
    assert_eq!(t.latest(), None);
    assert_eq!(tooltip(""), "Base layer");
    assert!(tooltip("NAV").contains("NAV"));
}

// ---------------------------------------------------------------------------
// What is drawn
// ---------------------------------------------------------------------------

fn rgb(c: Rgb) -> (u8, u8, u8) {
    (c.red, c.green, c.blue)
}

fn cap() -> KeyCap {
    KeyCap {
        key: String::new(),
        phys: String::new(),
        label: String::new(),
        emphasized: false,
        ghost_label: String::new(),
        accent: String::new(),
        state: KeyState::Normal,
        badge_left: None,
        badge_right: None,
    }
}

#[test]
fn hex_parses_rrggbb_with_or_without_hash() {
    assert_eq!(rgb(hex("#ff8800")), (255, 136, 0));
    assert_eq!(rgb(hex("00ff00")), (0, 255, 0)); // leading '#' is optional
}

#[test]
fn hex_is_black_on_malformed_input() {
    assert_eq!(rgb(hex("#fff")), (0, 0, 0)); // wrong length
    assert_eq!(rgb(hex("#gggggg")), (0, 0, 0)); // non-hex digits
    assert_eq!(rgb(hex("")), (0, 0, 0)); // empty
}

#[test]
fn to_keycap_maps_state_enum_to_int() {
    for (st, want) in [(KeyState::Normal, 0), (KeyState::Dim, 1), (KeyState::Hold, 2)] {
        let mut k = cap();
        k.state = st;
        assert_eq!(to_keycap(&k).state, want);
    }
}

#[test]
fn to_keycap_accent_present_vs_absent() {
    let mut k = cap();
    k.accent = "#abcdef".into();
    let kc = to_keycap(&k);
    assert!(kc.has_accent);
    assert_eq!(rgb(kc.accent), (0xab, 0xcd, 0xef));

    let blank = to_keycap(&cap()); // empty accent: not flagged, falls back to black
    assert!(!blank.has_accent);
    assert_eq!(rgb(blank.accent), (0, 0, 0));
    assert_eq!(board_accent("#0000ff"), (true, Rgb { red: 0, green: 0, blue: 255 }));
    assert!(!board_accent("").0);
}

#[test]
fn to_keycap_badge_text_color_and_presence() {
    let mut k = cap();
    k.badge_left = Some(Badge { text: "HOLD".into(), color: "#112233".into() });
    let kc = to_keycap(&k);
    assert!(kc.has_badge_left);
    assert_eq!(kc.badge_left.as_str(), "HOLD");
    assert_eq!(rgb(kc.badge_left_color), (0x11, 0x22, 0x33));
    // The absent right badge: no flag, empty text, black fallback color.
    assert!(!kc.has_badge_right);
    assert_eq!(kc.badge_right.as_str(), "");
    assert_eq!(rgb(kc.badge_right_color), (0, 0, 0));
}

#[test]
fn to_keycap_badge_empty_color_falls_back_to_black() {
    let mut k = cap();
    k.badge_right = Some(Badge { text: "+".into(), color: String::new() });
    let kc = to_keycap(&k);
    assert!(kc.has_badge_right);
    assert_eq!(kc.badge_right.as_str(), "+");
    assert_eq!(rgb(kc.badge_right_color), (0, 0, 0));
}

#[test]
fn to_keycap_passes_string_fields_through() {
    let mut k = cap();
    k.emphasized = true;
    k.key = "a".into();
    k.phys = "q".into();
    k.label = "Esc".into();
    k.ghost_label = "g".into();
    let kc = to_keycap(&k);
    assert!(kc.emphasized);
    assert_eq!(kc.key.as_str(), "a");
    assert_eq!(kc.phys.as_str(), "q");
    assert_eq!(kc.label.as_str(), "Esc");
    assert_eq!(kc.ghost_label.as_str(), "g");
    // These are always seeded false.
    assert!(!kc.pressed);
    assert!(!kc.chord_pick);
}

#[test]
fn id_matches_exact_and_keyd_type_prefixes() {
    assert!(id_matches("04fe:0021", "04fe:0021")); // bare vendor:product
    assert!(id_matches("k:04fe:0021", "04fe:0021")); // keyd keyboard prefix
    assert!(id_matches("m:1234:5678", "1234:5678")); // keyd mouse prefix
}

#[test]
fn id_matches_wildcard_and_mismatch_never_highlight() {
    assert!(!id_matches("*", "04fe:0021")); // wildcard stays un-highlighted
    assert!(!id_matches("dead:beef", "04fe:0021")); // different device
}

#[test]
fn a_sheet_lights_its_connected_ids() {
    let ids = texts(&["k:04fe:0021", "*"]);
    let s = to_sheet_data("/k/hhkb.conf", "P", &ids, "HHKB", "hhkb", &texts(&["04fe:0021"]));
    assert_eq!(s.name, "hhkb.conf");
    assert_eq!(s.path, "/k/hhkb.conf");
    let lit: Vec<bool> = s.id_tags.iter().map(|t| t.matched).collect();
    assert_eq!(lit, vec![true, false]);
}

// ---------------------------------------------------------------------------
// Snapshots
// ---------------------------------------------------------------------------

#[test]
fn a_snapshot_is_a_png_of_its_pixels() {
    let px = vec![Pixel { r: 1, g: 2, b: 3 }, Pixel { r: 250, g: 251, b: 252 }];
    assert_eq!(flatten(&px), vec![1, 2, 3, 250, 251, 252]);
    let file = save_snapshot(2, 1, &px).unwrap();
    assert_eq!(&file[..8], &[137, 80, 78, 71, 13, 10, 26, 10]);
    let mut reader = png::Decoder::new(file.as_slice()).read_info().unwrap();
    let mut buf = vec![0; reader.output_buffer_size()];
    let info = reader.next_frame(&mut buf).unwrap();
    assert_eq!((info.width, info.height), (2, 1));
    assert_eq!(info.color_type, png::ColorType::Rgb);
    assert_eq!(&buf[..info.buffer_size()], &[1, 2, 3, 250, 251, 252]);
    // The same pixels give the same file.
    assert_eq!(save_snapshot(2, 1, &px), Ok(file));
}

#[test]
fn an_empty_frame_is_refused() {
    let e = save_snapshot(0, 0, &Vec::new()).unwrap_err();
    assert_eq!(e, "png encode: Zero width not allowed");
    assert_eq!(report(Err("x".into())), Err("png encode: x".to_string()));
    assert_eq!(report(Ok(vec![1])), Ok(vec![1]));
}

#[test]
fn the_harness_drives_named_states() {
    assert!(drive_render_state("base").is_empty());
    assert_eq!(drive_render_state("edit"), vec![Act::ToggleEdit]);
    assert_eq!(
        drive_render_state("chord"),
        vec![
            Act::ToggleEdit,
            Act::SetBoardMode("chord".into()),
            Act::ToggleChordKey("j".into()),
            Act::ToggleChordKey("k".into()),
        ]
    );
    assert_eq!(
        drive_render_state("nope").last(),
        Some(&Act::Complain("unknown --render-state 'nope'".into()))
    );
    assert_eq!(render_delay(&None), 400);
    assert_eq!(render_delay(&Some("25".into())), 25);
    assert_eq!(render_delay(&Some("soon".into())), 400);
    assert_eq!(render_line("base", "o.png", 3, 2, &None), "rendered base 3x2 -> o.png");
    assert_eq!(
        render_line("base", "o.png", 3, 2, &Some("x".into())),
        "render error (base): x"
    );
}
