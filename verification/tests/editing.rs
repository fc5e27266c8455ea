//! The edit session, its drafts and its diff, over a small stand-in for the config model.

use keydviz::diff::line_diff;
use keydviz::drafts::{
    draft_path, draft_summary, drafts_dir, install_steps, keyd_check_bytes, keyd_check_draft,
    on_one_line, save_failed, shell_quote,
};
use keydviz::editing::{
    chord_key, few_text, gate, section_is_layer, Bound, Edit, EditSession, Entry, Model,
    Reference, Section, SectionKind, ViewOnly,
};
use keydviz::probe::CommandOutput;

const SRC: &str = "[ids]\n*\n\n[main]\ncapslock = esc\n\n[nav]\nh = left\n";

/// A config as its lines, edited in place.
struct Conf {
    lines: Vec<String>,
    edited: bool,
}

fn canonical(key: &str) -> Option<String> {
    if !key.contains('+') {
        return None;
    }
    let mut parts: Vec<&str> = key.split('+').map(str::trim).collect();
    parts.sort();
    Some(parts.join("+"))
}

fn binding(line: &str) -> Option<(String, String)> {
    line.split_once('=').map(|(k, v)| (k.trim().to_string(), v.trim().to_string()))
}

impl Conf {
    fn parse(text: &str) -> Conf {
        Conf { lines: text.lines().map(str::to_string).collect(), edited: false }
    }

    fn text(&self) -> String {
        self.lines.iter().map(|l| format!("{l}\n")).collect()
    }

    /// The headers with their lines: name, first line behind it, end.
    fn spans(&self) -> Vec<(String, usize, usize)> {
        let mut out: Vec<(String, usize, usize)> = Vec::new();
        for (i, l) in self.lines.iter().enumerate() {
            if l.starts_with('[') && l.ends_with(']') {
                if let Some(last) = out.last_mut() {
                    last.2 = i;
                }
                out.push((l[1..l.len() - 1].to_string(), i + 1, self.lines.len()));
            }
        }
        out
    }

    fn entries(&self, from: usize, to: usize) -> Vec<Entry> {
        self.lines[from..to]
            .iter()
            .filter_map(|l| binding(l))
            .map(|(key, val)| Entry { chord: canonical(&key), key, val: Some(val) })
            .collect()
    }

    fn model(&self) -> Model {
        let mut sections = Vec::new();
        let mut global = None;
        for (name, from, to) in self.spans() {
            let base = name.split(':').next().unwrap().to_string();
            let kind = match base.as_str() {
                "main" => SectionKind::Main,
                "ids" | "global" | "aliases" => SectionKind::Other,
                b if b.contains('+') => SectionKind::Composite,
                _ => SectionKind::Layer,
            };
            let entries = self.entries(from, to);
            let mut bound: Vec<Bound> = Vec::new();
            for e in &entries {
                bound.retain(|b| b.key != e.key);
                bound.push(Bound { key: e.key.clone(), val: e.val.clone().unwrap() });
            }
            if base == "global" {
                global = Some(self.entries(from, to));
            }
            sections.push(Section { kind, base, entries, bound });
        }
        let uses = self.uses();
        let orphans = self.uses().into_iter().filter(|r| self.span_of(&r.layer).is_none()).collect();
        Model { sections, global, uses, orphans, text: self.text(), edited: self.edited }
    }

    /// The bindings whose action names a layer, like `layer(nav)`.
    fn uses(&self) -> Vec<Reference> {
        let mut out = Vec::new();
        for (section, from, to) in self.spans() {
            for (key, val) in self.lines[from..to].iter().filter_map(|l| binding(l)) {
                if let Some((_, rest)) = val.split_once('(') {
                    let layer = rest.trim_end_matches(')').split(',').next().unwrap().to_string();
                    out.push(Reference { layer, section: section.clone(), key });
                }
            }
        }
        out
    }

    fn add_layer(&mut self, name: &str) -> Result<(), String> {
        let name = name.trim();
        if !name.chars().all(|c| c.is_ascii_alphanumeric() || c == '_') {
            return Err("a layer name has letters, digits and '_' only".to_string());
        }
        if self.span_of(name).is_some() {
            return Err(format!("[{name}] exists already"));
        }
        self.lines.push(format!("[{name}]"));
        self.edited = true;
        Ok(())
    }

    fn remove_layer(&mut self, name: &str) -> bool {
        let Some((from, to)) = self.span_of(name) else { return false };
        self.lines.drain(from - 1..to);
        self.edited = true;
        true
    }

    fn rename_layer(&mut self, old: &str, new: &str) -> Result<(), String> {
        if old == "main" || self.span_of(old).is_none() {
            return Err(format!("[{old}] can't be renamed"));
        }
        for l in &mut self.lines {
            *l = l.replace(&format!("[{old}]"), &format!("[{new}]"));
            *l = l.replace(&format!("({old})"), &format!("({new})"));
        }
        self.edited = true;
        Ok(())
    }

    fn span_of(&self, name: &str) -> Option<(usize, usize)> {
        self.spans()
            .into_iter()
            .rev()
            .find(|(n, _, _)| n.split(':').next() == Some(name))
            .map(|(_, a, b)| (a, b))
    }

    /// Whether the config has, or can have, a section for the layer.
    fn target(&self, layer: &str) -> bool {
        layer == "main" || self.span_of(layer).is_some()
    }

    fn target_lines(&self, layer: &str) -> Option<Vec<Entry>> {
        if !self.target(layer) {
            return None;
        }
        Some(match self.span_of(layer) {
            Some((a, b)) => self.entries(a, b),
            None => Vec::new(),
        })
    }

    fn put(&mut self, section: &str, key: &str, val: &str) {
        if self.span_of(section).is_none() {
            self.lines.push(String::new());
            self.lines.push(format!("[{section}]"));
        }
        let (from, to) = self.span_of(section).unwrap();
        self.edited = true;
        for i in from..to {
            if binding(&self.lines[i]).is_some_and(|(k, _)| k == key) {
                self.lines[i] = format!("{key} = {val}");
                return;
            }
        }
        let mut at = to;
        while at > from && self.lines[at - 1].trim().is_empty() {
            at -= 1;
        }
        self.lines.insert(at, format!("{key} = {val}"));
    }

    fn drop_key(&mut self, from: usize, to: usize, key: &str) {
        for i in (from..to).rev() {
            if binding(&self.lines[i]).is_some_and(|(k, _)| k == key) {
                self.lines.remove(i);
                self.edited = true;
            }
        }
    }

    fn make(&mut self, edit: Edit) {
        match edit {
            Edit::Bind { layer, key, val } | Edit::Rewrite { layer, key, val } => {
                self.put(&layer, &key, &val)
            }
            Edit::Unbind { layer, key } => {
                for (name, a, b) in self.spans().into_iter().rev() {
                    if name.split(':').next() == Some(layer.as_str()) {
                        self.drop_key(a, b, &key);
                    }
                }
            }
            Edit::Remove { section, key } => {
                let (_, a, b) = self.spans().swap_remove(section);
                self.drop_key(a, b, &key);
            }
            Edit::SetGlobal { name, val } => self.put("global", &name, &val),
            Edit::ClearGlobal { name } => {
                if let Some((a, b)) = self.span_of("global") {
                    self.drop_key(a, b, &name);
                }
            }
        }
    }
}

/// A session with the config behind it.
struct Desk {
    conf: Conf,
    s: EditSession,
}

impl Desk {
    fn open(path: &str, text: &str) -> Desk {
        let conf = Conf::parse(text);
        let s = EditSession::open(path, Ok(text.to_string()), true, &Vec::new(), conf.model());
        Desk { s: s.unwrap(), conf }
    }

    fn create(path: &str, id: &str) -> Desk {
        let conf = Conf::parse(&format!("[ids]\n{id}\n\n[main]\n"));
        let s = EditSession::create(path, true, &Vec::new(), conf.model());
        Desk { s: s.unwrap(), conf }
    }

    fn make(&mut self, edits: Vec<Edit>) {
        for e in edits {
            self.conf.make(e);
        }
        let m = self.conf.model();
        self.s.update(m);
    }

    fn bind(&mut self, layer: &str, key: &str, val: &str) -> Result<(), String> {
        let e = self.s.set_binding(layer, key, val, self.conf.target(layer))?;
        self.make(vec![e]);
        Ok(())
    }

    fn add_layer(&mut self, name: &str) -> Result<String, String> {
        let answer = self.conf.add_layer(name);
        self.make(Vec::new());
        self.s.add_layer(name, answer)
    }

    fn remove_layer(&mut self, base: &str) -> Result<(), String> {
        let removed = self.conf.remove_layer(base);
        self.make(Vec::new());
        self.s.remove_layer(base, removed)
    }

    fn rename_layer(&mut self, old: &str, new: &str) -> Result<String, String> {
        let answer = self.conf.rename_layer(old, new);
        self.make(Vec::new());
        self.s.rename_layer(new, answer)
    }

    fn clear(&mut self, layer: &str, key: &str) -> Result<(), String> {
        let e = self.s.clear_binding(layer, key)?;
        self.make(vec![e]);
        Ok(())
    }

    fn chord(&mut self, layer: &str, a: &str, b: &str, act: &str) -> Result<(), String> {
        let id = canonical(&chord_key(a, b)).unwrap_or_default();
        let e = self.s.set_chord(layer, a, b, act, &id, &self.conf.target_lines(layer))?;
        self.make(vec![e]);
        Ok(())
    }

    fn unchord(&mut self, layer: &str, chord: &str) -> Result<(), String> {
        let edits = self.s.remove_chord(layer, &canonical(chord).unwrap())?;
        self.make(edits);
        Ok(())
    }

    fn chords(&self, layer: &str) -> Vec<(String, String)> {
        self.s.chords(layer).into_iter().map(|c| (c.key, c.val)).collect()
    }

    fn globals(&self) -> Vec<(String, String)> {
        self.s.global_entries().into_iter().map(|c| (c.key, c.val)).collect()
    }

    fn set_global(&mut self, name: &str, value: &str) -> Result<(), String> {
        let e = self.s.set_global(name, value)?;
        self.make(vec![e]);
        Ok(())
    }
}

fn pair(a: &str, b: &str) -> (String, String) {
    (a.to_string(), b.to_string())
}

fn session() -> Desk {
    Desk::open("/td/test.conf", SRC)
}

// ---------------------------------------------------------------------------
// Bindings
// ---------------------------------------------------------------------------

#[test]
fn open_edit_rerender_diff() {
    let mut d = session();
    assert!(!d.s.dirty());
    assert_eq!(d.s.current_binding("main", "capslock").as_deref(), Some("esc"));
    d.bind("main", "capslock", "noop").unwrap();
    assert!(d.s.dirty());
    assert_eq!(d.s.current_binding("main", "capslock").as_deref(), Some("noop"));
    assert_eq!(d.s.diff(), "- capslock = esc\n+ capslock = noop\n");
}

#[test]
fn edit_targets_the_right_layer_section() {
    let mut d = session();
    d.bind("nav", "j", "down").unwrap();
    assert_eq!(d.s.diff(), "+ j = down\n");
    assert_eq!(d.s.current_binding("nav", "j").as_deref(), Some("down"));
    // No such section: a named error, not a panic or silent drop.
    assert!(d.bind("sym", "a", "b").unwrap_err().contains("[sym]"));
}

#[test]
fn clear_binding_makes_a_key_transparent() {
    let mut d = session();
    d.clear("main", "capslock").unwrap();
    assert!(d.s.dirty());
    assert_eq!(d.s.current_binding("main", "capslock"), None);
    assert_eq!(d.s.diff(), "- capslock = esc\n");
    // Clearing an already-unbound key is a no-op; a missing board errors.
    let mut d2 = session();
    d2.clear("main", "nonexistent").unwrap();
    assert!(!d2.s.dirty());
    assert!(d2.clear("sym", "a").unwrap_err().contains("[sym]"));
}

#[test]
fn clear_across_merged_sections_diffs_cleanly() {
    let mut d = Desk::open(
        "/td/test.conf",
        "[ids]\n*\n\n[nav]\nh = left\n[nav:C]\nh = right\nj = down\n",
    );
    d.clear("nav", "h").unwrap();
    assert_eq!(d.s.diff(), "- h = left\n- h = right\n");
}

#[test]
fn editable_sections_are_the_real_file_sections() {
    let d = session();
    assert_eq!(d.s.editable_sections(), vec!["main".to_string(), "nav".to_string()]);
    // A config with no [main] must not advertise a "main" chip that errors on click.
    let d2 = Desk::open("/td/nomain.conf", "[ids]\n*\n\n[nav]\nh = left\n");
    assert_eq!(d2.s.editable_sections(), vec!["nav".to_string()]);
}

#[test]
fn bind_on_a_config_without_main_creates_it() {
    let mut d = Desk::open("/td/inc.conf", "[ids]\n*\n\ninclude shared\n");
    d.bind("main", "a", "b").unwrap();
    assert_eq!(d.s.current_binding("main", "a").as_deref(), Some("b"));
    let out = d.s.serialized();
    assert!(out.contains("[main]"), "appended a [main] section");
    assert!(out.contains("include shared"), "preserved the include directive");
    // tap/hold takes the same path.
    let target = d.conf.target("main");
    let e = d.s.set_tap_hold("main", "f", &None, "overload(nav, f)", target).unwrap();
    d.make(vec![e]);
    assert!(d.s.current_binding("main", "f").is_some());
}

#[test]
fn tap_hold_refuses_to_clobber_an_overloadi() {
    let orig = "overloadi(a, overloadt2(nav, a, 500), 200)";
    let mut d = Desk::open(
        "/td/test.conf",
        &format!("[ids]\n*\n\n[main]\na = {orig}\n\n[nav]\nh = left\n"),
    );
    let form = Some("overloadi".to_string());
    let err = d.s.set_tap_hold("main", "a", &form, "overloadt2(num, a, 200)", true).unwrap_err();
    assert!(err.contains("overloadi") && err.contains("simple"), "{err}");
    // The original is untouched and the session stays clean.
    assert_eq!(d.s.current_binding("main", "a").as_deref(), Some(orig));
    assert!(!d.s.dirty());
    // Editing it as raw text in simple mode still works.
    d.bind("main", "a", "b").unwrap();
    assert_eq!(d.s.current_binding("main", "a").as_deref(), Some("b"));
}

#[test]
fn a_tap_hold_is_bound_as_it_was_composed() {
    let mut d = session();
    let e = d.s.set_tap_hold("main", "capslock", &None, "overloadt2(nav, esc, 200)", true);
    d.make(vec![e.unwrap()]);
    assert_eq!(d.s.diff(), "- capslock = esc\n+ capslock = overloadt2(nav, esc, 200)\n");
    assert!(d.s.set_tap_hold("sym", "a", &None, "layer(nav)", false).is_err());
}

#[test]
fn set_macro_refuses_empty_and_literal_paren() {
    let d = session();
    let none = None;
    let ok = Some("macro(x)".to_string());
    assert!(d.s.set_macro("main", "capslock", 0, &none, false, "macro()", &ok, true).is_err());
    // Text that does not survive being read back is refused.
    let e = d.s.set_macro("main", "capslock", 1, &none, false, "macro(a(b)", &none, true);
    assert!(e.unwrap_err().contains("parentheses"));
    let e = d.s.set_macro("main", "capslock", 1, &none, false, "macro(a(b)", &ok, true);
    assert!(e.is_err());
    // The original binding is untouched.
    assert_eq!(d.s.current_binding("main", "capslock").as_deref(), Some("esc"));
}

#[test]
fn set_macro_refuses_to_clobber_an_unmodelable_macro() {
    let d = Desk::open("/td/test.conf", "[ids]\n*\n[main]\na = macro(b macro(c))\n");
    let form = Some("macro".to_string());
    let again = Some("macro(x)".to_string());
    let e = d.s.set_macro("main", "a", 1, &form, false, "macro(x)", &again, true);
    assert!(e.unwrap_err().contains("simple mode"));
    assert_eq!(d.s.current_binding("main", "a").as_deref(), Some("macro(b macro(c))"));
    // One that can be taken apart is replaced.
    let e = d.s.set_macro("main", "a", 1, &form, true, "macro(x)", &again, true);
    assert!(matches!(e, Ok(Edit::Bind { val, .. }) if val == "macro(x)"));
}

// ---------------------------------------------------------------------------
// Layers
// ---------------------------------------------------------------------------

#[test]
fn layer_answers_are_passed_on() {
    let d = session();
    assert_eq!(d.s.add_layer(" sym ", Ok(())), Ok("sym".to_string()));
    assert_eq!(d.s.add_layer("sym", Err("exists".into())), Err("exists".to_string()));
    assert_eq!(d.s.rename_layer(" symbols", Ok(())), Ok("symbols".to_string()));
    assert!(d.s.rename_layer("base", Err("no".into())).is_err());
    assert_eq!(d.s.remove_layer("nav", true), Ok(()));
    assert!(d.s.remove_layer("nope", false).unwrap_err().contains("[nope]"));
}

#[test]
fn add_layer_then_edit_it() {
    let mut d = session();
    // SRC has [ids], [main], [nav]; create a fresh [sym].
    assert_eq!(d.add_layer("sym").unwrap(), "sym");
    assert!(d.s.dirty());
    // It joins the editable chooser and accepts a binding.
    assert!(d.s.editable_sections().contains(&"sym".to_string()));
    d.bind("sym", "a", "b").unwrap();
    assert_eq!(d.s.current_binding("sym", "a").as_deref(), Some("b"));
    // Bad names and duplicates surface a reason, not a panic.
    assert!(d.add_layer("sym").unwrap_err().contains("exists"));
    assert!(d.add_layer("a b").unwrap_err().contains("letters"));
}

#[test]
fn add_layer_clears_the_orphan_warning_live() {
    let mut d = Desk::open("/td/test.conf", "[ids]\n*\n[main]\ncapslock = layer(sym)\n");
    assert_eq!(d.s.orphan_warnings().len(), 1);
    d.add_layer("sym").unwrap();
    // Defining the layer resolves the dangling reference.
    assert!(d.s.orphan_warnings().is_empty());
}

#[test]
fn remove_layer_and_its_references() {
    let mut d = Desk::open(
        "/td/test.conf",
        "[ids]\n*\n[main]\ncapslock = layer(nav)\n[nav]\nh = left\n",
    );
    // Before deleting: the heads-up names where nav is still used.
    assert_eq!(d.s.references_to("nav"), vec!["capslock in [main]".to_string()]);
    assert!(d.s.references_to("main").is_empty());
    d.remove_layer("nav").unwrap();
    assert!(d.s.dirty());
    assert!(!d.s.editable_sections().contains(&"nav".to_string()));
    // The now-dangling layer(nav) becomes an orphan warning (honest, not silent).
    assert_eq!(d.s.orphan_warnings().len(), 1);
    // Deleting a layer that doesn't exist is a named error.
    assert!(d.remove_layer("nope").unwrap_err().contains("[nope]"));
}

#[test]
fn rename_layer_follows_references_and_clears_orphans() {
    let mut d = Desk::open(
        "/td/test.conf",
        "[ids]\n*\n[main]\ncapslock = layer(nav)\n[nav]\nh = left\n",
    );
    assert_eq!(d.rename_layer("nav", "symbols").unwrap(), "symbols");
    assert!(d.s.dirty());
    assert!(d.s.editable_sections().contains(&"symbols".to_string()));
    assert!(!d.s.editable_sections().contains(&"nav".to_string()));
    // The reference followed the rename, and the binding now points at it.
    assert!(d.s.orphan_warnings().is_empty());
    assert_eq!(d.s.current_binding("main", "capslock").as_deref(), Some("layer(symbols)"));
    // Renaming a non-layer / missing base is a named error.
    assert!(d.rename_layer("main", "base").is_err());
}

#[test]
fn orphans_are_grouped_by_layer() {
    let d = Desk::open(
        "/td/test.conf",
        "[main]\na = layer(sym)\n[nav]\nb = layer(fn)\n[main]\nc = layer(sym)\n\
         [nav]\nd = layer(sym)\ne = toggle(sym)\n",
    );
    assert_eq!(
        d.s.orphan_warnings(),
        vec![
            "\u{26a0} no [sym] layer \u{2014} referenced by a in [main], c in [main], d in [nav] (+1 more)"
                .to_string(),
            "\u{26a0} no [fn] layer \u{2014} referenced by b in [nav]".to_string(),
        ]
    );
    assert!(session().s.orphan_warnings().is_empty());
    let four: Vec<String> = ["a", "b", "c", "d"].iter().map(|s| s.to_string()).collect();
    assert_eq!(few_text(&four), "a, b, c (+1 more)");
}

#[test]
fn a_qualified_section_belongs_to_its_layer() {
    let m = Conf::parse("[nav:C]\nh = left\n[a+b]\n[main]\n").model();
    assert!(section_is_layer(&m.sections[0], "nav"));
    assert!(section_is_layer(&m.sections[1], "a+b"));
    assert!(section_is_layer(&m.sections[2], "main"));
    assert!(!section_is_layer(&m.sections[0], "main"));
}

// ---------------------------------------------------------------------------
// New configs and drafts
// ---------------------------------------------------------------------------

#[test]
fn create_new_config_is_editable_and_dirty_from_the_start() {
    let mut d = Desk::create("/td/newboard.conf", "04fe:0021");
    assert!(d.s.dirty());
    assert!(d.s.is_new());
    assert_eq!(d.s.serialized(), "[ids]\n04fe:0021\n\n[main]\n");
    assert_eq!(d.s.editable_sections(), vec!["main".to_string()]);
    d.bind("main", "capslock", "esc").unwrap();
    assert_eq!(d.s.current_binding("main", "capslock").as_deref(), Some("esc"));
    // The diff shows the whole new file as additions.
    assert_eq!(d.s.diff(), "+ [ids]\n+ 04fe:0021\n+ \n+ [main]\n+ capslock = esc\n");
}

#[test]
fn create_wildcard_and_apply_target() {
    let d = Desk::create("/td/default.conf", "*");
    assert_eq!(d.s.serialized(), "[ids]\n*\n\n[main]\n");
    assert_eq!(d.s.apply_target("/td").as_deref(), Some("default"));
    // No stale warning for a not-yet-existing file.
    assert!(d.s.stale_warning(&None).is_none());
}

#[test]
fn create_save_draft_writes_the_starter() {
    let mut d = Desk::create("/td/mine.conf", "dead:beef");
    d.bind("main", "a", "b").unwrap();
    let draft = d.s.save_draft_to("/td/drafts".into());
    assert_eq!(draft.path, "/td/drafts/mine.conf");
    assert_eq!(draft.body, "[ids]\ndead:beef\n\n[main]\na = b\n");
    let saved = d.s.draft_saved(draft, &None, None);
    assert!(saved.install_steps.contains("mine.conf"));
}

#[test]
fn gate_sends_unreproducible_files_to_view_only() {
    let m = || Conf::parse(SRC).model();
    let warn = vec!["a note".to_string(), "keyd rejects this file".to_string()];
    let r = EditSession::open("/td/bad.conf", Ok(String::new()), true, &warn, m());
    assert!(matches!(r, Err(ViewOnly::KeydRejects(w)) if w == "keyd rejects this file"));
    let r = EditSession::open("/td/bad.conf", Ok(String::new()), false, &warn, m());
    assert!(matches!(r, Err(ViewOnly::RoundTripGate)));
    let r = EditSession::open("/td/bad.conf", Err("gone".into()), true, &warn, m());
    let v = r.unwrap_err();
    assert_eq!(v.describe(), "can't read config: gone");
    assert!(EditSession::create("/td/x.conf", false, &Vec::new(), m()).is_err());
    assert!(gate(true, &vec!["a note".to_string()]).is_none());
    assert_eq!(
        ViewOnly::RoundTripGate.describe(),
        "view-only: this file can't be reproduced byte-for-byte"
    );
    assert_eq!(ViewOnly::KeydRejects("x".into()).describe(), "view-only: x");
}

#[test]
fn save_draft_writes_serialized_bytes_and_steps() {
    let mut d = session();
    d.bind("main", "capslock", "noop").unwrap();
    let draft = d.s.save_draft(&Some("/cfg".into())).unwrap();
    assert_eq!(draft.dir, "/cfg/keyd-viz/drafts");
    assert_eq!(draft.body, SRC.replace("capslock = esc", "capslock = noop"));
    let saved = d.s.draft_saved(draft, &Some(SRC.to_string()), Some(Ok(())));
    assert!(saved.install_steps.contains("sudo cp"));
    assert!(saved.install_steps.contains("sudo keyd reload"));
    assert!(saved.stale_warning.is_none());
    assert_eq!(saved.check, Some(Ok(())));
    assert!(d.s.save_draft(&None).is_err());
}

#[test]
fn stale_real_file_is_flagged() {
    let mut d = session();
    d.bind("main", "capslock", "noop").unwrap();
    let draft = d.s.save_draft_to("/td/drafts".into());
    let saved = d.s.draft_saved(draft, &Some("[ids]\n*\n[main]\na = b\n".into()), None);
    assert!(saved.stale_warning.is_some());
}

#[test]
fn stale_warning_matches_save_draft() {
    let mut d = session();
    d.bind("main", "capslock", "noop").unwrap();
    assert!(d.s.stale_warning(&Some(SRC.to_string())).is_none());
    let w = d.s.stale_warning(&Some("[ids]\n*\n[main]\na = b\n".into())).unwrap();
    assert!(w.starts_with("/td/test.conf changed on disk"));
}

#[test]
fn serialized_is_the_draft_body() {
    let mut d = session();
    d.bind("main", "capslock", "noop").unwrap();
    // What apply would send is byte-for-byte what the draft wrote.
    assert_eq!(d.s.serialized(), d.s.save_draft_to("/td/drafts".into()).body);
}

#[test]
fn apply_target_only_matches_dir_and_valid_names() {
    let d = session();
    assert_eq!(d.s.apply_target("/td").as_deref(), Some("test"));
    // Wrong dir: not a one-click candidate.
    assert_eq!(d.s.apply_target("/etc/keyd"), None);
    // A name the allow-list rejects (dots) never qualifies.
    assert_eq!(Desk::open("/td/my.board.conf", SRC).s.apply_target("/td"), None);
    // No .conf suffix: keyd wouldn't load it.
    assert_eq!(Desk::open("/td/noext", SRC).s.apply_target("/td"), None);
}

#[test]
fn shell_quote_only_when_needed() {
    assert_eq!(shell_quote("/etc/keyd/hhkb.conf"), "/etc/keyd/hhkb.conf");
    assert_eq!(shell_quote("/tmp/my dir/x.conf"), "'/tmp/my dir/x.conf'");
}

#[test]
fn a_quote_is_taken_out_of_the_quotes() {
    assert_eq!(shell_quote("it's"), r"'it'\''s'");
    assert_eq!(install_steps("/d/a b", "/k/a"), "sudo cp '/d/a b' /k/a\nsudo keyd reload");
    assert_eq!(draft_path("/k/a.conf", "/d"), "/d/a.conf");
    assert_eq!(draft_path("/", "/d"), "/d/draft.conf");
    assert_eq!(drafts_dir(&None), None);
}

fn out(success: bool, stdout: &[u8]) -> Option<CommandOutput> {
    Some(CommandOutput { success, stdout: stdout.to_vec() })
}

#[test]
fn keyd_check_bytes_mirrors_environment() {
    let good = keyd_check_bytes(true, &out(true, b""));
    let bad = keyd_check_bytes(true, &out(false, b"bad line\nat 4\xff\n"));
    assert_eq!(good, Some(Ok(())));
    assert_eq!(bad, Some(Err("bad line | at 4\u{fffd}".to_string())));
    // No keyd, or nothing to check: never a false "valid".
    assert_eq!(keyd_check_bytes(true, &None), None);
    assert_eq!(keyd_check_bytes(false, &out(true, b"")), None);
    assert_eq!(keyd_check_draft(&None), None);
    assert_eq!(on_one_line(" a\nb "), "a | b");
}

#[test]
fn a_draft_that_was_not_saved_is_said_so() {
    assert_eq!(save_failed("disk full"), "\u{26a0} draft save failed: disk full");
}

#[test]
fn a_draft_is_summed_up() {
    let d = session();
    let draft = d.s.save_draft_to("/d".into());
    let saved = d.s.draft_saved(draft, &None, Some(Err("bad".into())));
    assert_eq!(
        draft_summary(&saved, "- a\n+ b\n\n"),
        "draft saved: /d/test.conf\n\u{26a0} keyd check failed: bad\n\n- a\n+ b\n\ninstall:\n\
         sudo cp /d/test.conf /td/test.conf\nsudo keyd reload"
    );
    let saved = d.s.draft_saved(d.s.save_draft_to("/d".into()), &Some("x".into()), None);
    let text = draft_summary(&saved, "");
    assert!(text.contains("keyd not found"));
    assert!(text.contains("changed on disk"));
}

// ---------------------------------------------------------------------------
// Chords
// ---------------------------------------------------------------------------

#[test]
fn chords_lists_all_main_chords() {
    let d = Desk::open(
        "/td/test.conf",
        "[ids]\n*\n\n[main]\nj+k = esc\nx+c = toggle(game)\n",
    );
    assert_eq!(d.chords("main"), vec![pair("j+k", "esc"), pair("x+c", "toggle(game)")]);
}

#[test]
fn set_chord_appends_then_edits_in_canonical_order() {
    let mut d = session();
    d.chord("main", "j", "k", "esc").unwrap();
    assert!(d.s.dirty());
    assert_eq!(d.chords("main"), vec![pair("j+k", "esc")]);
    // Editing the reversed spelling rewrites the same line.
    d.chord("main", "k", "j", "tab").unwrap();
    assert_eq!(d.chords("main"), vec![pair("j+k", "tab")], "one line, rewritten");
    assert!(d.s.serialized().contains("j+k = tab"));
    assert!(!d.s.serialized().contains("k+j"), "no duplicate reversed line");
}

#[test]
fn set_chord_rejects_bad_input() {
    let mut d = session();
    assert!(d.chord("main", "j", "j", "esc").unwrap_err().contains("different"));
    assert!(d.chord("main", "j", "k", "  ").unwrap_err().contains("action"));
    assert!(d.chord("main", " ", "k", "esc").unwrap_err().contains("two keys"));
    assert!(d.chord("sym", "j", "k", "esc").unwrap_err().contains("[sym]"));
    // No [main] section at all: setting a chord creates one.
    let mut d2 = Desk::open("/td/nomain.conf", "[ids]\n*\n\n[nav]\nh = left\n");
    d2.chord("main", "j", "k", "esc").unwrap();
    assert_eq!(d2.chords("main"), vec![pair("j+k", "esc")]);
    assert!(d2.s.serialized().contains("[main]"));
}

#[test]
fn remove_chord_clears_either_spelling() {
    let text = "[ids]\n*\n\n[main]\nj+k = esc\n";
    let mut d = Desk::open("/td/test.conf", text);
    // Remove via the reversed spelling.
    d.unchord("main", "k+j").unwrap();
    assert!(d.s.dirty());
    assert!(d.chords("main").is_empty());
    assert!(!d.s.serialized().contains("j+k"));
    // Removing a chord that isn't there is a no-op; no [main] is an error.
    let mut d2 = Desk::open("/td/test.conf", text);
    d2.unchord("main", "a+b").unwrap();
    assert!(!d2.s.dirty());
    let mut d3 = Desk::open("/td/nomain.conf", "[ids]\n*\n\n[nav]\nh = left\n");
    assert!(d3.unchord("main", "j+k").unwrap_err().contains("[main]"));
}

#[test]
fn toggle_chord_flows_to_config_and_orphan_warning() {
    let mut d = session(); // defines [nav]
    // A toggle chord onto an existing layer is listed, and no orphan.
    d.chord("main", "leftshift", "rightshift", "toggle(nav)").unwrap();
    assert!(d.chords("main").contains(&pair("leftshift+rightshift", "toggle(nav)")));
    assert!(d.s.orphan_warnings().is_empty());
    // Retargeting it at a missing layer raises an orphan warning.
    d.chord("main", "leftshift", "rightshift", "toggle(missing)").unwrap();
    assert!(d.s.orphan_warnings().iter().any(|w| w.contains("missing")));
}

#[test]
fn chords_are_layer_scoped() {
    let mut d = session();
    d.chord("nav", "h", "l", "esc").unwrap();
    assert_eq!(d.chords("nav"), vec![pair("h+l", "esc")]);
    assert!(d.chords("main").is_empty(), "the nav chord must not leak into main");
    assert!(d.s.serialized().contains("h+l = esc"));
    // Remove scoped to nav clears it; main stays untouched.
    d.unchord("nav", "l+h").unwrap();
    assert!(d.chords("nav").is_empty());
    assert!(!d.s.serialized().contains("h+l"));
}

#[test]
fn the_last_spelling_of_a_chord_wins() {
    let d = Desk::open("/td/t.conf", "[main]\nj+k = a\nx+y = b\nk+j = c\n");
    assert_eq!(d.chords("main"), vec![pair("x+y", "b"), pair("k+j", "c")]);
    // All spellings go.
    let mut d = d;
    d.unchord("main", "j+k").unwrap();
    assert_eq!(d.s.serialized(), "[main]\nx+y = b\n");
}

// ---------------------------------------------------------------------------
// Global options
// ---------------------------------------------------------------------------

#[test]
fn set_global_creates_section_then_edits_and_clears() {
    let mut d = session();
    assert!(d.globals().is_empty());
    d.set_global("layer_indicator", "1").unwrap();
    assert!(d.s.dirty());
    assert_eq!(d.globals(), vec![pair("layer_indicator", "1")]);
    assert!(d.s.serialized().contains("[global]"));
    assert!(d.s.serialized().contains("layer_indicator = 1"));
    // Re-setting rewrites in place.
    d.set_global("layer_indicator", "0").unwrap();
    assert_eq!(d.globals(), vec![pair("layer_indicator", "0")]);
    // Empty value clears the option back to the keyd default.
    d.set_global("layer_indicator", "").unwrap();
    assert!(d.globals().is_empty());
    assert!(!d.s.serialized().contains("layer_indicator"));
    // Missing name is rejected.
    assert!(d.set_global("", "1").unwrap_err().contains("name"));
    // Clearing an absent option is a no-op.
    assert!(!d.s.has_global("oneshot_timeout"));
    let before = d.s.serialized();
    let e = d.s.clear_global(" oneshot_timeout ");
    assert_eq!(e, Edit::ClearGlobal { name: "oneshot_timeout".into() });
    d.make(vec![e]);
    assert_eq!(d.s.serialized(), before);
}

#[test]
fn an_option_that_is_set_can_be_cleared() {
    let mut d = Desk::open("/td/test.conf", "[global]\nmacro_timeout = 600\n");
    assert!(d.s.has_global(" macro_timeout "));
    let e = d.s.clear_global("macro_timeout");
    d.make(vec![e]);
    assert!(!d.s.has_global("macro_timeout") && d.globals().is_empty());
    assert!(!session().s.has_global("macro_timeout"));
}

#[test]
fn removing_a_chord_leaves_the_others_listed() {
    let mut d = Desk::open(
        "/td/test.conf",
        "[main]\nj+k = esc\na+s = tab\nk+j = x\n[nav]\nj+k = y\n",
    );
    d.unchord("main", "k+j").unwrap();
    assert_eq!(d.chords("main"), vec![pair("a+s", "tab")]);
    assert_eq!(d.chords("nav"), vec![pair("j+k", "y")]);
    // Removing it again changes nothing.
    let before = d.s.serialized();
    d.unchord("main", "j+k").unwrap();
    assert_eq!(d.s.serialized(), before);
}

#[test]
fn global_entries_reads_existing_section_last_wins() {
    let d = Desk::open(
        "/td/test.conf",
        "[global]\nmacro_timeout = 600\nlayer_indicator = 1\nmacro_timeout = 400\n\n[main]\na = b\n",
    );
    assert_eq!(
        d.globals(),
        vec![pair("layer_indicator", "1"), pair("macro_timeout", "400")]
    );
}

// ---------------------------------------------------------------------------
// The diff
// ---------------------------------------------------------------------------

#[test]
fn a_diff_shows_only_what_changed() {
    assert_eq!(line_diff("a\nb\nc\n", "a\nb\nc\n"), "");
    assert_eq!(line_diff("", "a\n"), "+ a\n");
    assert_eq!(line_diff("a\n", ""), "- a\n");
    assert_eq!(line_diff("a\nb\nc\nd\n", "a\nc\nx\nd\n"), "- b\n+ x\n");
    // Removals come before additions where both would do.
    assert_eq!(line_diff("a\n", "b\n"), "- a\n+ b\n");
    // A missing final line break is not a changed line.
    assert_eq!(line_diff("a\nb", "a\nb\n"), "");
}
