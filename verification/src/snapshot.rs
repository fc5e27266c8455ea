//! Snapshots of the window as PNG images, and the states that the snapshot harness drives
//! the window into.

use crate::apply_ctx::ApplyState;
use crate::strings;
use crate::text;
use vstd::prelude::*;

verus! {

// ---------------------------------------------------------------------------
// The image
// ---------------------------------------------------------------------------

/// A pixel; the window is opaque, so it has no alpha.
#[derive(Debug, Clone, Copy, PartialEq, Eq, Structural)]
pub struct Pixel {
    pub r: u8,
    pub g: u8,
    pub b: u8,
}

/// The three channels of the pixels, one pixel behind the other.
pub open spec fn channels(pixels: Seq<Pixel>) -> Seq<u8>
    decreases pixels.len(),
{
    if pixels.len() == 0 {
        Seq::empty()
    } else {
        channels(pixels.drop_last()) + seq![pixels.last().r, pixels.last().g, pixels.last().b]
    }
}

/// The pixels as three-channel image data.
pub fn flatten(pixels: &Vec<Pixel>) -> (r: Vec<u8>)
    ensures
        r@ == channels(pixels@),
        r@.len() == 3 * pixels@.len(),
{
    let mut r: Vec<u8> = Vec::new();
    let mut i: usize = 0;
    assert(r@ =~= channels(pixels@.subrange(0, 0)));
    while i < pixels.len()
        invariant
            i <= pixels@.len(),
            r@ == channels(pixels@.subrange(0, i as int)),
            r@.len() == 3 * i,
        decreases pixels.len() - i,
    {
        let ghost next = pixels@.subrange(0, i + 1);
        let ghost before = r@;
        assert(next.drop_last() =~= pixels@.subrange(0, i as int));
        let p = pixels[i];
        r.push(p.r);
        r.push(p.g);
        r.push(p.b);
        assert(r@ =~= before + seq![p.r, p.g, p.b]);
        i = i + 1;
    }
    assert(pixels@.subrange(0, i as int) =~= pixels@);
    r
}

/// The channels of each pixel stand where an image reader looks for them.
pub proof fn channels_stand_in_order(pixels: Seq<Pixel>, i: int)
    requires
        0 <= i < pixels.len(),
    ensures
        channels(pixels).len() == 3 * pixels.len(),
        channels(pixels)[3 * i] == pixels[i].r,
        channels(pixels)[3 * i + 1] == pixels[i].g,
        channels(pixels)[3 * i + 2] == pixels[i].b,
    decreases pixels.len(),
{
    let front = pixels.drop_last();
    if front.len() > 0 {
        channels_stand_in_order(front, if i < front.len() {
            i
        } else {
            0
        });
    }
    assert(channels(front).len() == 3 * front.len());
    if i < front.len() {
        assert(front[i] == pixels[i]);
    }
}

/// What the `png` encoder makes of three-channel, eight-bit image data: the bytes of the
/// file, or the encoder's own words on why there is none.
pub uninterp spec fn png_file(width: nat, height: nat, data: Seq<u8>) -> Result<Seq<u8>, Seq<char>>;

/// The bytes that a PNG file starts with.
pub open spec fn png_signature() -> Seq<u8> {
    seq![137u8, 80, 78, 71, 13, 10, 26, 10]
}

/// The number that four bytes write, the most significant first.
pub open spec fn big_endian(b: Seq<u8>) -> nat {
    (b[0] as nat) * 16777216 + (b[1] as nat) * 65536 + (b[2] as nat) * 256 + b[3] as nat
}

/// The bytes start as a PNG file of this size does: the signature, and the size in the
/// header behind it.
pub open spec fn has_header(b: Seq<u8>, width: nat, height: nat) -> bool {
    &&& text::starts_with(b, png_signature())
    &&& b.len() >= 24
    &&& big_endian(b.subrange(16, 20)) == width
    &&& big_endian(b.subrange(20, 24)) == height
}

/// The bytes or the words of a result.
pub open spec fn outcome(r: Result<Vec<u8>, String>) -> Result<Seq<u8>, Seq<char>> {
    match r {
        Ok(b) => Ok(b@),
        Err(e) => Err(e@),
    }
}

/// Runs `png::Encoder` over a buffer, with `set_color(Rgb)`, `set_depth(Eight)`,
/// `write_header` and `write_image_data`. The result depends on the arguments alone; an
/// image without width or height is refused, and a file starts with the PNG signature and
/// a header that gives the size. That the compression inside succeeds is not claimed, nor
/// what else the file holds.
#[verifier::external_body]
fn encode_png(width: u32, height: u32, data: &[u8]) -> (r: Result<Vec<u8>, String>)
    requires
        data@.len() == 3 * width * height,
    ensures
        outcome(r) == png_file(width as nat, height as nat, data@),
        width == 0 || height == 0 ==> r is Err,
        r is Ok ==> has_header(r->Ok_0@, width as nat, height as nat),
{
    let mut out: Vec<u8> = Vec::new();
    let mut enc = png::Encoder::new(&mut out, width, height);
    enc.set_color(png::ColorType::Rgb);
    enc.set_depth(png::BitDepth::Eight);
    let done = enc.write_header().and_then(|mut w| w.write_image_data(data));
    match done {
        Ok(()) => Ok(out),
        Err(e) => Err(e.to_string()),
    }
}

/// What is reported of an image, from what the encoder gave.
pub open spec fn reported(r: Result<Seq<u8>, Seq<char>>) -> Result<Seq<u8>, Seq<char>> {
    match r {
        Ok(b) => Ok(b),
        Err(e) => Err("png encode: "@ + e),
    }
}

/// What is reported of an image, from what the encoder gave.
pub fn report(r: Result<Vec<u8>, String>) -> (s: Result<Vec<u8>, String>)
    ensures
        outcome(s) == reported(outcome(r)),
{
    match r {
        Ok(b) => Ok(b),
        Err(e) => Err(strings::cat("png encode: ", e.as_str())),
    }
}

/// The window's frame as the bytes of a PNG file.
pub fn save_snapshot(width: u32, height: u32, pixels: &Vec<Pixel>) -> (r: Result<Vec<u8>, String>)
    requires
        pixels@.len() == width * height,
    ensures
        outcome(r) == reported(
            png_file(width as nat, height as nat, channels(pixels@)),
        ),
        width == 0 || height == 0 ==> r is Err,
        r is Ok ==> has_header(r->Ok_0@, width as nat, height as nat),
{
    let data = flatten(pixels);
    assert(data@.len() == 3 * width * height) by (nonlinear_arith)
        requires
            data@.len() == 3 * pixels@.len(),
            pixels@.len() == width * height,
    ;
    report(encode_png(width, height, data.as_slice()))
}

// ---------------------------------------------------------------------------
// The harness
// ---------------------------------------------------------------------------

/// Something that the harness does to the window, by the callbacks that a click runs or
/// by filling a field.
#[derive(Debug, PartialEq, Eq)]
pub enum Act {
    ToggleEdit,
    ShowBackups,
    OpenBackups,
    SelectKey(String),
    FillLabel(String),
    SetKeyMode(String),
    FillMacroText(String),
    AddMacroText,
    FillMacroDelay(String),
    AddMacroDelay,
    HoldControl,
    FillMacroKey(String),
    AddMacroChord,
    OpenPicker(String),
    FilterKeys(String),
    SetBoardMode(String),
    ToggleChordKey(String),
    EditGlobal,
    NewLayer(String),
    PickLayer(String),
    FillRename { target: String, name: String },
    DeleteLayer(String),
    AskDiscard,
    /// A panel that a real run would raise only with privileges.
    ShowApply { state: ApplyState, info: String },
    Complain(String),
}

pub enum ActView {
    ToggleEdit,
    ShowBackups,
    OpenBackups,
    SelectKey(Seq<char>),
    FillLabel(Seq<char>),
    SetKeyMode(Seq<char>),
    FillMacroText(Seq<char>),
    AddMacroText,
    FillMacroDelay(Seq<char>),
    AddMacroDelay,
    HoldControl,
    FillMacroKey(Seq<char>),
    AddMacroChord,
    OpenPicker(Seq<char>),
    FilterKeys(Seq<char>),
    SetBoardMode(Seq<char>),
    ToggleChordKey(Seq<char>),
    EditGlobal,
    NewLayer(Seq<char>),
    PickLayer(Seq<char>),
    FillRename { target: Seq<char>, name: Seq<char> },
    DeleteLayer(Seq<char>),
    AskDiscard,
    ShowApply { state: ApplyState, info: Seq<char> },
    Complain(Seq<char>),
}

impl View for Act {
    type V = ActView;

    open spec fn view(&self) -> ActView {
        match self {
            Act::ToggleEdit => ActView::ToggleEdit,
            Act::ShowBackups => ActView::ShowBackups,
            Act::OpenBackups => ActView::OpenBackups,
            Act::SelectKey(k) => ActView::SelectKey(k@),
            Act::FillLabel(t) => ActView::FillLabel(t@),
            Act::SetKeyMode(m) => ActView::SetKeyMode(m@),
            Act::FillMacroText(t) => ActView::FillMacroText(t@),
            Act::AddMacroText => ActView::AddMacroText,
            Act::FillMacroDelay(t) => ActView::FillMacroDelay(t@),
            Act::AddMacroDelay => ActView::AddMacroDelay,
            Act::HoldControl => ActView::HoldControl,
            Act::FillMacroKey(t) => ActView::FillMacroKey(t@),
            Act::AddMacroChord => ActView::AddMacroChord,
            Act::OpenPicker(t) => ActView::OpenPicker(t@),
            Act::FilterKeys(t) => ActView::FilterKeys(t@),
            Act::SetBoardMode(m) => ActView::SetBoardMode(m@),
            Act::ToggleChordKey(k) => ActView::ToggleChordKey(k@),
            Act::EditGlobal => ActView::EditGlobal,
            Act::NewLayer(n) => ActView::NewLayer(n@),
            Act::PickLayer(n) => ActView::PickLayer(n@),
            Act::FillRename { target, name } => ActView::FillRename {
                target: target@,
                name: name@,
            },
            Act::DeleteLayer(n) => ActView::DeleteLayer(n@),
            Act::AskDiscard => ActView::AskDiscard,
            Act::ShowApply { state, info } => ActView::ShowApply { state: *state, info: info@ },
            Act::Complain(t) => ActView::Complain(t@),
        }
    }
}

/// What the confirm panel is shown with.
pub open spec fn sample_review() -> Seq<char> {
    "\u{26a0} this config can run a command when you press a key \u{2014} review before applying\n\n+ [nav]\n+ g = escape   (G \u{2192} Esc)\n- k = k\n+ k = lettermod(control, k, 150, 200)   (Tap K \u{2192} K \u{00b7} Hold K \u{2192} Ctrl)"@
}

/// What drives the window, in edit mode, into a named state.
pub open spec fn acts_in_edit(state: Seq<char>) -> Seq<ActView> {
    if state == "edit"@ {
        Seq::empty()
    } else if state == "backups"@ {
        seq![ActView::ShowBackups, ActView::OpenBackups]
    } else if state == "key-selected"@ {
        seq![ActView::SelectKey("a"@)]
    } else if state == "label"@ {
        seq![ActView::SelectKey("a"@), ActView::FillLabel("My Key"@)]
    } else if state == "tap-hold"@ {
        seq![ActView::SelectKey("f"@), ActView::SetKeyMode("taphold"@)]
    } else if state == "macro"@ {
        seq![
            ActView::SelectKey("a"@),
            ActView::SetKeyMode("macro"@),
            ActView::FillMacroText("git push"@),
            ActView::AddMacroText,
            ActView::FillMacroDelay("200"@),
            ActView::AddMacroDelay,
            ActView::HoldControl,
            ActView::FillMacroKey("enter"@),
            ActView::AddMacroChord,
        ]
    } else if state == "picker"@ {
        seq![
            ActView::SelectKey("f"@),
            ActView::SetKeyMode("taphold"@),
            ActView::OpenPicker("tap"@),
            ActView::FilterKeys(Seq::empty()),
        ]
    } else if state == "chord"@ {
        seq![
            ActView::SetBoardMode("chord"@),
            ActView::ToggleChordKey("j"@),
            ActView::ToggleChordKey("k"@),
        ]
    } else if state == "global"@ {
        seq![ActView::EditGlobal]
    } else if state == "new-layer"@ {
        seq![ActView::NewLayer("fn"@)]
    } else if state == "rename-layer"@ {
        seq![
            ActView::PickLayer("nav"@),
            ActView::FillRename { target: "nav"@, name: "navigation"@ },
        ]
    } else if state == "delete-layer"@ {
        seq![ActView::PickLayer("nav"@), ActView::DeleteLayer("nav"@)]
    } else if state == "discard"@ {
        seq![ActView::AskDiscard]
    } else if state == "apply-summary"@ {
        seq![ActView::ShowApply { state: ApplyState::Confirm, info: sample_review() }]
    } else {
        seq![ActView::Complain("unknown --render-state '"@ + state + "'"@)]
    }
}

/// What drives the window into a named state: the base board is there already, and every
/// other state is inside edit mode.
pub open spec fn acts_for(state: Seq<char>) -> Seq<ActView> {
    if state == "base"@ {
        Seq::empty()
    } else {
        seq![ActView::ToggleEdit] + acts_in_edit(state)
    }
}

fn edit_acts(state: &str) -> (r: Vec<Act>)
    ensures
        text::views(r@) == acts_in_edit(state@),
{
    let mut r: Vec<Act> = Vec::new();
    if strings::same(state, "edit") {
    } else if strings::same(state, "backups") {
        r.push(Act::ShowBackups);
        r.push(Act::OpenBackups);
    } else if strings::same(state, "key-selected") {
        r.push(Act::SelectKey(strings::copy("a")));
    } else if strings::same(state, "label") {
        r.push(Act::SelectKey(strings::copy("a")));
        r.push(Act::FillLabel(strings::copy("My Key")));
    } else if strings::same(state, "tap-hold") {
        r.push(Act::SelectKey(strings::copy("f")));
        r.push(Act::SetKeyMode(strings::copy("taphold")));
    } else if strings::same(state, "macro") {
        r.push(Act::SelectKey(strings::copy("a")));
        r.push(Act::SetKeyMode(strings::copy("macro")));
        r.push(Act::FillMacroText(strings::copy("git push")));
        r.push(Act::AddMacroText);
        r.push(Act::FillMacroDelay(strings::copy("200")));
        r.push(Act::AddMacroDelay);
        r.push(Act::HoldControl);
        r.push(Act::FillMacroKey(strings::copy("enter")));
        r.push(Act::AddMacroChord);
    } else if strings::same(state, "picker") {
        r.push(Act::SelectKey(strings::copy("f")));
        r.push(Act::SetKeyMode(strings::copy("taphold")));
        r.push(Act::OpenPicker(strings::copy("tap")));
        let all = String::new();
        assert(all@ =~= Seq::<char>::empty());
        r.push(Act::FilterKeys(all));
    } else if strings::same(state, "chord") {
        r.push(Act::SetBoardMode(strings::copy("chord")));
        r.push(Act::ToggleChordKey(strings::copy("j")));
        r.push(Act::ToggleChordKey(strings::copy("k")));
    } else if strings::same(state, "global") {
        r.push(Act::EditGlobal);
    } else if strings::same(state, "new-layer") {
        r.push(Act::NewLayer(strings::copy("fn")));
    } else if strings::same(state, "rename-layer") {
        r.push(Act::PickLayer(strings::copy("nav")));
        r.push(
            Act::FillRename { target: strings::copy("nav"), name: strings::copy("navigation") },
        );
    } else if strings::same(state, "delete-layer") {
        r.push(Act::PickLayer(strings::copy("nav")));
        r.push(Act::DeleteLayer(strings::copy("nav")));
    } else if strings::same(state, "discard") {
        r.push(Act::AskDiscard);
    } else if strings::same(state, "apply-summary") {
        let info = strings::copy(
            "\u{26a0} this config can run a command when you press a key \u{2014} review before applying\n\n+ [nav]\n+ g = escape   (G \u{2192} Esc)\n- k = k\n+ k = lettermod(control, k, 150, 200)   (Tap K \u{2192} K \u{00b7} Hold K \u{2192} Ctrl)",
        );
        r.push(Act::ShowApply { state: ApplyState::Confirm, info });
    } else {
        r.push(Act::Complain(strings::cat3("unknown --render-state '", state, "'")));
    }
    assert(text::views(r@) =~= acts_in_edit(state@));
    r
}

/// What drives the window into a named state for a snapshot, by the callbacks that a
/// click runs, so that the panels fill authentically.
pub fn drive_render_state(state: &str) -> (r: Vec<Act>)
    ensures
        text::views(r@) == acts_for(state@),
{
    let mut r: Vec<Act> = Vec::new();
    if strings::same(state, "base") {
        assert(text::views(r@) =~= acts_for(state@));
        return r;
    }
    r.push(Act::ToggleEdit);
    let mut more = edit_acts(state);
    let ghost m = text::views(more@);
    r.append(&mut more);
    assert(text::views(r@) =~= seq![ActView::ToggleEdit] + m);
    r
}

/// How long the harness waits before it takes the snapshot, in milliseconds.
pub open spec fn delay_of(flag: Option<Seq<char>>) -> nat {
    match flag {
        Some(s) => match text::parse_number(s, 10, 18446744073709551615) {
            Some(n) => n,
            None => 400,
        },
        None => 400,
    }
}

/// How long the harness waits before it takes the snapshot, in milliseconds.
pub fn render_delay(flag: &Option<String>) -> (r: u64)
    ensures
        r as nat == delay_of(text::opt(*flag)),
{
    match flag {
        Some(s) => match strings::parse_number(s.as_str(), 10, 18446744073709551615) {
            Some(n) => n,
            None => 400,
        },
        None => 400,
    }
}

/// What the harness says of a snapshot: the state, the size, and where it went, or what
/// went wrong.
pub open spec fn said_of(
    state: Seq<char>,
    out: Seq<char>,
    width: nat,
    height: nat,
    error: Option<Seq<char>>,
) -> Seq<char> {
    match error {
        Some(e) => "render error ("@ + state + "): "@ + e,
        None => "rendered "@ + state + " "@ + text::decimal(width) + "x"@ + text::decimal(height)
            + " -> "@ + out,
    }
}

/// What the harness says of a snapshot.
pub fn render_line(state: &str, out: &str, width: u32, height: u32, error: &Option<String>) -> (r:
    String)
    ensures
        r@ == said_of(state@, out@, width as nat, height as nat, text::opt(*error)),
{
    match error {
        Some(e) => {
            let mut r = strings::cat3("render error (", state, "): ");
            r.append(e.as_str());
            r
        },
        None => {
            let mut r = strings::cat3("rendered ", state, " ");
            r.append(strings::decimal(width as u64).as_str());
            r.append("x");
            r.append(strings::decimal(height as u64).as_str());
            r.append(" -> ");
            r.append(out);
            r
        },
    }
}

/// The base board needs nothing done; every other state is reached from edit mode, which is
/// entered first and once.
pub proof fn states_are_reached_through_edit_mode(state: Seq<char>)
    ensures
        acts_for("base"@).len() == 0,
        state != "base"@ ==> acts_for(state).len() > 0 && acts_for(state)[0] is ToggleEdit,
        forall|i: int| 0 < i < acts_for(state).len() ==> !(#[trigger] acts_for(state)[i] is ToggleEdit),
        acts_for("edit"@) == seq![ActView::ToggleEdit],
{
    reveal_strlit("base");
    reveal_strlit("edit");
    assert("base"@[0] != "edit"@[0]);
    assert(acts_for("edit"@) =~= seq![ActView::ToggleEdit]);
}

/// A state that is selected by a key is one of that key: selecting comes before what is done
/// to it.
pub proof fn a_key_is_selected_first(state: Seq<char>, i: int)
    requires
        0 <= i < acts_for(state).len(),
        acts_for(state)[i] is SetKeyMode || acts_for(state)[i] is FillLabel,
    ensures
        exists|j: int| 0 <= j < i && (#[trigger] acts_for(state)[j]) is SelectKey,
{
    let acts = acts_for(state);
    assert(state != "base"@);
    assert(i > 0);
    assert(acts[i] == acts_in_edit(state)[i - 1]);
    assert(acts[1] == acts_in_edit(state)[0]);
    assert(acts[1] is SelectKey);
}

/// A state that is not known is complained of by its name.
pub proof fn an_unknown_state_is_complained_of(state: Seq<char>)
    requires
        !seq![
            "base"@,
            "edit"@,
            "backups"@,
            "key-selected"@,
            "label"@,
            "tap-hold"@,
            "macro"@,
            "picker"@,
            "chord"@,
            "global"@,
            "new-layer"@,
            "rename-layer"@,
            "delete-layer"@,
            "discard"@,
            "apply-summary"@,
        ].contains(state),
    ensures
        acts_for(state) == seq![
            ActView::ToggleEdit,
            ActView::Complain("unknown --render-state '"@ + state + "'"@),
        ],
{
    let known = seq![
        "base"@,
        "edit"@,
        "backups"@,
        "key-selected"@,
        "label"@,
        "tap-hold"@,
        "macro"@,
        "picker"@,
        "chord"@,
        "global"@,
        "new-layer"@,
        "rename-layer"@,
        "delete-layer"@,
        "discard"@,
        "apply-summary"@,
    ];
    assert(state != known[0] && state != known[1] && state != known[2] && state != known[3]
        && state != known[4] && state != known[5] && state != known[6] && state != known[7]
        && state != known[8] && state != known[9] && state != known[10] && state != known[11]
        && state != known[12] && state != known[13] && state != known[14]);
    assert(acts_for(state) =~= seq![
        ActView::ToggleEdit,
        ActView::Complain("unknown --render-state '"@ + state + "'"@),
    ]);
}

/// The harness waits as long as it is told, and for four tenths of a second where it is told
/// nothing or no number.
pub proof fn the_harness_waits_as_told(n: nat, flag: Seq<char>)
    requires
        n <= u64::MAX,
    ensures
        delay_of(Some(text::decimal(n))) == n,
        delay_of(None) == 400,
        text::parse_number(flag, 10, u64::MAX as nat) is None ==> delay_of(Some(flag)) == 400,
{
    text::decimal_parses(n, u64::MAX as nat);
}

/// An image is reported as the encoder made it, and a failure in its own words.
pub proof fn an_image_is_reported_as_it_is(bytes: Seq<u8>, why: Seq<char>)
    ensures
        reported(Ok(bytes)) == Ok::<Seq<u8>, Seq<char>>(bytes),
        reported(Err(why)) == Err::<Seq<u8>, Seq<char>>("png encode: "@ + why),
{
}

/// A snapshot is told with its state, its size and its place, and one that failed with the
/// reason.
pub proof fn a_snapshot_is_told(
    state: Seq<char>,
    out: Seq<char>,
    width: nat,
    height: nat,
    why: Seq<char>,
)
    ensures
        said_of(state, out, width, height, None) == "rendered "@ + state + " "@ + text::decimal(
            width,
        ) + "x"@ + text::decimal(height) + " -> "@ + out,
        said_of(state, out, width, height, Some(why)) == "render error ("@ + state + "): "@ + why,
{
}

} // verus!
