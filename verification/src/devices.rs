//! Connected input devices, as the kernel lists them, and which of them keyd takes for
//! keyboards.
//!
//! keyd marks a device as a keyboard if its key bitmap contains all of the digits and the
//! letters Q to Y, or any of a few media keys. The same bitmap stands in the `B: KEY=`
//! line of the kernel's list, so the rule is reproduced without opening the device.

use crate::strings;
use crate::text;
use vstd::prelude::*;

verus! {

/// A connected input device, with what is needed to match it against `[ids]`.
#[derive(Debug, PartialEq, Eq)]
pub struct InputDevice {
    pub name: String,
    /// 4-hex lowercase vendor id.
    pub vendor: String,
    /// 4-hex lowercase product id.
    pub product: String,
    /// A real keyboard or a media-key emitter, as keyd sees it.
    pub is_keyboard: bool,
    /// Has the whole alphanumeric key set.
    pub full_keyboard: bool,
}

pub struct DeviceView {
    pub name: Seq<char>,
    pub vendor: Seq<char>,
    pub product: Seq<char>,
    pub is_keyboard: bool,
    pub full_keyboard: bool,
}

impl View for InputDevice {
    type V = DeviceView;

    open spec fn view(&self) -> DeviceView {
        DeviceView {
            name: self.name@,
            vendor: self.vendor@,
            product: self.product@,
            is_keyboard: self.is_keyboard,
            full_keyboard: self.full_keyboard,
        }
    }
}

impl DeviceView {
    /// The `vendor:product` id.
    pub open spec fn devid(self) -> Seq<char> {
        self.vendor + ":"@ + self.product
    }
}

impl InputDevice {
    /// The `vendor:product` id used for `[ids]` matching.
    pub fn devid(&self) -> (r: String)
        ensures
            r@ == self@.devid(),
    {
        strings::cat3(self.vendor.as_str(), ":", self.product.as_str())
    }

    /// A copy of the device.
    pub fn copy(&self) -> (r: InputDevice)
        ensures
            r@ == self@,
    {
        InputDevice {
            name: strings::copy(self.name.as_str()),
            vendor: strings::copy(self.vendor.as_str()),
            product: strings::copy(self.product.as_str()),
            is_keyboard: self.is_keyboard,
            full_keyboard: self.full_keyboard,
        }
    }
}

// ---------------------------------------------------------------------------
// Key bitmaps
// ---------------------------------------------------------------------------

/// The key code is set in a bitmap printed most significant word first; all-zero words
/// at the front are left out.
pub open spec fn key_set(words: Seq<u64>, code: nat) -> bool {
    let group = code / 64;
    let bit = (code % 64) as u64;
    group < words.len() && (words[words.len() - 1 - group] >> bit) & 1u64 == 1u64
}

/// A code of keyd's keyboard key set: the digits, and Q to Y.
pub open spec fn is_keyboard_key(code: nat) -> bool {
    2 <= code <= 11 || 16 <= code <= 21
}

/// The device has the whole keyboard key set.
pub open spec fn has_keyboard_keys(words: Seq<u64>) -> bool {
    words.len() > 0 && forall|code: nat| is_keyboard_key(code) ==> #[trigger] key_set(words, code)
}

/// The device has one of keyd's media keys.
pub open spec fn has_media_key(words: Seq<u64>) -> bool {
    key_set(words, 225) || key_set(words, 115) || key_set(words, 530) || key_set(words, 532)
        || key_set(words, 248)
}

/// Whether the key code is set.
pub fn has_key(words: &Vec<u64>, code: u32) -> (r: bool)
    ensures
        r == key_set(words@, code as nat),
{
    let group: usize = (code / 64) as usize;
    let bit: u64 = (code % 64) as u64;
    let n: usize = words.len();
    if group >= n {
        return false;
    }
    (words[n - 1 - group] >> bit) & 1 == 1
}

/// Whether all codes from `a` to `b` are set.
fn has_range(words: &Vec<u64>, a: u32, b: u32) -> (r: bool)
    requires
        a <= b < 1000,
    ensures
        r == (forall|code: nat| a <= code <= b ==> #[trigger] key_set(words@, code)),
{
    let mut code: u32 = a;
    while code <= b
        invariant
            a <= code <= b + 1,
            b < 1000,
            forall|c: nat| a <= c < code ==> #[trigger] key_set(words@, c),
        decreases b + 1 - code,
    {
        if !has_key(words, code) {
            assert(!key_set(words@, code as nat));
            return false;
        }
        code = code + 1;
    }
    true
}

/// Whether the device has the whole keyboard key set.
fn has_all_keyboard_keys(words: &Vec<u64>) -> (r: bool)
    ensures
        r == has_keyboard_keys(words@),
{
    words.len() > 0 && has_range(words, 2, 11) && has_range(words, 16, 21)
}

/// Whether the device has one of keyd's media keys.
fn has_any_media_key(words: &Vec<u64>) -> (r: bool)
    ensures
        r == has_media_key(words@),
{
    has_key(words, 225) || has_key(words, 115) || has_key(words, 530) || has_key(words, 532)
        || has_key(words, 248)
}

/// Words of zeros in front of a bitmap make no difference: it says the same of every code.
pub proof fn leading_zero_words_are_nothing(words: Seq<u64>, code: nat)
    ensures
        key_set(seq![0u64] + words, code) == key_set(words, code),
{
    let z = seq![0u64] + words;
    let group = code / 64;
    let bit = (code % 64) as u64;
    if group < words.len() {
        assert(z[z.len() - 1 - group] == words[words.len() - 1 - group]);
    } else if group == words.len() {
        assert(z[z.len() - 1 - group] == 0u64);
        assert((0u64 >> bit) & 1u64 == 0u64) by (bit_vector);
    }
}

// ---------------------------------------------------------------------------
// Blocks of the list
// ---------------------------------------------------------------------------

/// What the lines of one device have said so far.
pub struct BlockView {
    pub name: Option<Seq<char>>,
    pub vendor: Option<Seq<char>>,
    pub product: Option<Seq<char>>,
    pub words: Option<Seq<u64>>,
}

/// Nothing said yet.
pub open spec fn empty_block() -> BlockView {
    BlockView { name: None, vendor: None, product: None, words: None }
}

/// The block after the first `n` words of an identity line.
pub open spec fn feed_ids(b: BlockView, words: Seq<Seq<char>>, n: nat) -> BlockView
    decreases n,
{
    if n == 0 {
        b
    } else {
        let before = feed_ids(b, words, (n - 1) as nat);
        let w = words[n - 1];
        if let Some(v) = text::strip_prefix(w, "Vendor="@) {
            BlockView { vendor: Some(text::ascii_lower(v)), ..before }
        } else if let Some(p) = text::strip_prefix(w, "Product="@) {
            BlockView { product: Some(text::ascii_lower(p)), ..before }
        } else {
            before
        }
    }
}

/// The numbers among the first `n` words that are hexadecimal.
pub open spec fn hex_words(words: Seq<Seq<char>>, n: nat) -> Seq<u64>
    decreases n,
{
    if n == 0 {
        Seq::empty()
    } else {
        let before = hex_words(words, (n - 1) as nat);
        match text::parse_number(words[n - 1], 16, u64::MAX as nat) {
            Some(v) => before.push(v as u64),
            None => before,
        }
    }
}

/// `s` without the quotes at its front.
pub open spec fn unquote_start(s: Seq<char>) -> Seq<char>
    decreases s.len(),
{
    if s.len() > 0 && s[0] == '"' {
        unquote_start(s.subrange(1, s.len() as int))
    } else {
        s
    }
}

/// `s` without the quotes at its end.
pub open spec fn unquote_end(s: Seq<char>) -> Seq<char>
    decreases s.len(),
{
    if s.len() > 0 && s.last() == '"' {
        unquote_end(s.drop_last())
    } else {
        s
    }
}

/// The block after one more line.
pub open spec fn feed(b: BlockView, line: Seq<char>) -> BlockView {
    if let Some(rest) = text::strip_prefix(line, "I:"@) {
        feed_ids(b, text::words(rest), text::words(rest).len())
    } else if let Some(rest) = text::strip_prefix(line, "N: Name="@) {
        BlockView { name: Some(unquote_end(unquote_start(text::trim(rest)))), ..b }
    } else if let Some(rest) = text::strip_prefix(line, "B: KEY="@) {
        BlockView { words: Some(hex_words(text::words(rest), text::words(rest).len())), ..b }
    } else {
        b
    }
}

/// The device of a block, where it has said who it is.
pub open spec fn finish(b: BlockView) -> Option<DeviceView> {
    if b.vendor is None || b.product is None {
        None
    } else {
        let words = match b.words {
            Some(w) => w,
            None => Seq::empty(),
        };
        Some(
            DeviceView {
                name: match b.name {
                    Some(n) => n,
                    None => Seq::empty(),
                },
                vendor: b.vendor->0,
                product: b.product->0,
                is_keyboard: has_keyboard_keys(words) || has_media_key(words),
                full_keyboard: has_keyboard_keys(words),
            },
        )
    }
}

/// The devices with one more, where there is one.
pub open spec fn with_device(done: Seq<DeviceView>, d: Option<DeviceView>) -> Seq<DeviceView> {
    match d {
        Some(x) => done.push(x),
        None => done,
    }
}

/// The devices finished within the first `n` lines, and the block that is open then.
/// A blank line ends a block.
pub open spec fn read_lines(lines: Seq<Seq<char>>, n: nat) -> (Seq<DeviceView>, BlockView)
    decreases n,
{
    if n == 0 {
        (Seq::empty(), empty_block())
    } else {
        let (done, open) = read_lines(lines, (n - 1) as nat);
        if text::trim(lines[n - 1]).len() == 0 {
            (with_device(done, finish(open)), empty_block())
        } else {
            (done, feed(open, lines[n - 1]))
        }
    }
}

/// The devices of the kernel's list.
pub open spec fn devices_of(list: Seq<char>) -> Seq<DeviceView> {
    let (done, open) = read_lines(text::lines(list), text::lines(list).len());
    with_device(done, finish(open))
}

/// What the lines of one device have said so far.
struct Block {
    name: Option<String>,
    vendor: Option<String>,
    product: Option<String>,
    words: Option<Vec<u64>>,
}

impl View for Block {
    type V = BlockView;

    closed spec fn view(&self) -> BlockView {
        BlockView {
            name: text::opt(self.name),
            vendor: text::opt(self.vendor),
            product: text::opt(self.product),
            words: match self.words {
                Some(w) => Some(w@),
                None => None,
            },
        }
    }
}

/// The string without quotes at either end.
fn unquote(s: &str) -> (r: String)
    ensures
        r@ == unquote_end(unquote_start(s@)),
{
    let v = strings::chars(s);
    let mut a: usize = 0;
    assert(s@.subrange(0, s@.len() as int) =~= s@);
    while a < v.len() && v[a] == '"'
        invariant
            a <= v@.len(),
            v@ == s@,
            unquote_start(s@) == unquote_start(s@.subrange(a as int, s@.len() as int)),
        decreases v.len() - a,
    {
        assert(s@.subrange(a as int, s@.len() as int).subrange(1, s@.len() - a) =~= s@.subrange(
            a + 1,
            s@.len() as int,
        ));
        a = a + 1;
    }
    let ghost front = s@.subrange(a as int, s@.len() as int);
    assert(unquote_start(s@) == front);
    let mut b: usize = v.len();
    assert(front.subrange(0, front.len() as int) =~= front);
    while b > a && v[b - 1] == '"'
        invariant
            a <= b <= v@.len(),
            v@ == s@,
            front == s@.subrange(a as int, s@.len() as int),
            unquote_end(front) == unquote_end(front.subrange(0, b - a)),
        decreases b,
    {
        assert(front.subrange(0, b - a).drop_last() =~= front.subrange(0, b - a - 1));
        b = b - 1;
    }
    assert(unquote_end(front) == front.subrange(0, b - a));
    assert(front.subrange(0, b - a) =~= s@.subrange(a as int, b as int));
    strings::slice(&v, a, b)
}

impl Block {
    fn new() -> (r: Block)
        ensures
            r@ == empty_block(),
    {
        Block { name: None, vendor: None, product: None, words: None }
    }

    /// Take in one line.
    fn feed(self, line: &str) -> (r: Block)
        ensures
            r@ == feed(self@, line@),
    {
        let mut b = self;
        if let Some(rest) = strings::strip_prefix(line, "I:") {
            let toks = strings::words(rest.as_str());
            let ghost all = text::words(rest@);
            assert(toks@.len() == all.len());
            let mut i: usize = 0;
            while i < toks.len()
                invariant
                    i <= toks@.len(),
                    text::texts(toks@) == all,
                    b@ == feed_ids(self@, all, i as nat),
                decreases toks.len() - i,
            {
                assert(all[i as int] == toks@[i as int]@);
                if let Some(v) = strings::strip_prefix(toks[i].as_str(), "Vendor=") {
                    b.vendor = Some(strings::ascii_lower(v.as_str()));
                } else if let Some(p) = strings::strip_prefix(toks[i].as_str(), "Product=") {
                    b.product = Some(strings::ascii_lower(p.as_str()));
                }
                i = i + 1;
            }
            b
        } else if let Some(rest) = strings::strip_prefix(line, "N: Name=") {
            b.name = Some(unquote(strings::trim(rest.as_str()).as_str()));
            b
        } else if let Some(rest) = strings::strip_prefix(line, "B: KEY=") {
            let toks = strings::words(rest.as_str());
            let ghost all = text::words(rest@);
            assert(toks@.len() == all.len());
            let mut words: Vec<u64> = Vec::new();
            let mut i: usize = 0;
            while i < toks.len()
                invariant
                    i <= toks@.len(),
                    text::texts(toks@) == all,
                    words@ == hex_words(all, i as nat),
                decreases toks.len() - i,
            {
                assert(all[i as int] == toks@[i as int]@);
                if let Some(v) = strings::parse_number(toks[i].as_str(), 16, u64::MAX) {
                    words.push(v);
                }
                i = i + 1;
            }
            b.words = Some(words);
            b
        } else {
            b
        }
    }

    /// The device of the block.
    fn finish(self) -> (r: Option<InputDevice>)
        ensures
            match r {
                Some(d) => finish(self@) == Some(d@),
                None => finish(self@) is None,
            },
    {
        match (self.vendor, self.product) {
            (Some(vendor), Some(product)) => {
                let words = match self.words {
                    Some(w) => w,
                    None => Vec::new(),
                };
                let full = has_all_keyboard_keys(&words);
                let media = has_any_media_key(&words);
                let name = match self.name {
                    Some(n) => n,
                    None => String::new(),
                };
                Some(
                    InputDevice {
                        name,
                        vendor,
                        product,
                        is_keyboard: full || media,
                        full_keyboard: full,
                    },
                )
            },
            _ => None,
        }
    }
}

/// Read the kernel's list of input devices.
pub fn parse_devices(list: &str) -> (r: Vec<InputDevice>)
    ensures
        text::views(r@) == devices_of(list@),
{
    let lines = strings::lines(list);
    let ghost all = text::lines(list@);
    assert(lines@.len() == all.len());
    let mut out: Vec<InputDevice> = Vec::new();
    let mut block = Block::new();
    let mut i: usize = 0;
    assert(text::views(out@) =~= Seq::<DeviceView>::empty());
    while i < lines.len()
        invariant
            i <= lines@.len(),
            text::texts(lines@) == all,
            (text::views(out@), block@) == read_lines(all, i as nat),
        decreases lines.len() - i,
    {
        assert(all[i as int] == lines@[i as int]@);
        let line = lines[i].as_str();
        if strings::trim(line).as_str().is_empty() {
            let ghost before = text::views(out@);
            if let Some(d) = block.finish() {
                let ghost dv = d@;
                out.push(d);
                assert(text::views(out@) =~= before.push(dv));
            }
            block = Block::new();
        } else {
            block = block.feed(line);
        }
        i = i + 1;
    }
    let ghost before = text::views(out@);
    if let Some(d) = block.finish() {
        let ghost dv = d@;
        out.push(d);
        assert(text::views(out@) =~= before.push(dv));
    }
    out
}

proof fn prefix_before_return(line: Seq<char>, p: Seq<char>)
    requires
        p.len() > 0,
        p.last() != '\r',
    ensures
        text::strip_prefix(line.push('\r'), p) == (match text::strip_prefix(line, p) {
            Some(rest) => Some(rest.push('\r')),
            None => None,
        }),
{
    let long = line.push('\r');
    if p.len() <= line.len() {
        assert(long.subrange(0, p.len() as int) =~= line.subrange(0, p.len() as int));
        assert(long.subrange(p.len() as int, long.len() as int) =~= line.subrange(
            p.len() as int,
            line.len() as int,
        ).push('\r'));
    } else if p.len() == long.len() {
        if long.subrange(0, p.len() as int) == p {
            assert(long.subrange(0, p.len() as int)[p.len() - 1] == '\r');
        }
    }
}

/// A carriage return at the end of a line changes nothing of what it says.
proof fn feed_ignores_return(b: BlockView, line: Seq<char>)
    ensures
        feed(b, line.push('\r')) == feed(b, line),
        text::trim(line.push('\r')) == text::trim(line),
{
    reveal_strlit("I:");
    reveal_strlit("N: Name=");
    reveal_strlit("B: KEY=");
    prefix_before_return(line, "I:"@);
    prefix_before_return(line, "N: Name="@);
    prefix_before_return(line, "B: KEY="@);
    text::trailing_white_is_nothing(line, '\r');
    if let Some(rest) = text::strip_prefix(line, "I:"@) {
        text::trailing_white_is_nothing(rest, '\r');
    }
    if let Some(rest) = text::strip_prefix(line, "N: Name="@) {
        text::trailing_white_is_nothing(rest, '\r');
    }
    if let Some(rest) = text::strip_prefix(line, "B: KEY="@) {
        text::trailing_white_is_nothing(rest, '\r');
    }
}

proof fn same_front_reads_same(a: Seq<Seq<char>>, b: Seq<Seq<char>>, n: nat)
    requires
        forall|i: int| 0 <= i < n ==> a[i] == b[i],
    ensures
        read_lines(a, n) == read_lines(b, n),
    decreases n,
{
    if n > 0 {
        same_front_reads_same(a, b, (n - 1) as nat);
        assert(a[n - 1] == b[n - 1]);
    }
}

/// Where no block is open, what follows is read as if it stood alone.
proof fn reads_on_afresh(a: Seq<Seq<char>>, b: Seq<Seq<char>>, n: nat)
    requires
        read_lines(a, a.len()).1 == empty_block(),
        n <= b.len(),
    ensures
        read_lines(a + b, a.len() + n) == (
            read_lines(a, a.len()).0 + read_lines(b, n).0,
            read_lines(b, n).1,
        ),
    decreases n,
{
    let all = a + b;
    let done = read_lines(a, a.len()).0;
    if n == 0 {
        same_front_reads_same(all, a, a.len());
        assert(done + Seq::<DeviceView>::empty() =~= done);
    } else {
        reads_on_afresh(a, b, (n - 1) as nat);
        assert(all[a.len() + n - 1] == b[n - 1]);
        let (d, open) = read_lines(b, (n - 1) as nat);
        if let Some(x) = finish(open) {
            assert((done + d).push(x) =~= done + d.push(x));
        }
    }
}

/// One block never leaks into the next: two lists with a blank line between them are read
/// as each of them is, one after the other, and a last block needs no blank line behind it.
pub proof fn joined_lists_read_apart(a: Seq<char>, b: Seq<char>)
    ensures
        devices_of(a + "\n\n"@ + b) == devices_of(a) + devices_of(b),
{
    reveal_strlit("\n\n");
    let none = Seq::<char>::empty();
    let all = a + "\n\n"@ + b;
    assert(all =~= a.push('\n') + (none.push('\n') + b));
    text::split_at_separator(none, '\n', b);
    text::split_at_separator(a, '\n', none.push('\n') + b);
    text::split_has_a_piece(a, '\n');
    text::split_has_a_piece(b, '\n');
    let pa = text::split(a, '\n');
    let pb = text::split(b, '\n');
    assert(text::split(none, '\n') =~= seq![none]);
    assert(text::split(all, '\n') =~= pa + (seq![none] + pb));
    let la = Seq::new(pa.len(), |i: int| text::chop_cr(pa[i]));
    let front = la.push(none);
    let lb = text::lines(b);
    assert(text::lines(all) =~= front + lb);
    // The first list, its last line without what ended it, and the blank line.
    let own = text::lines(a);
    let n = (pa.len() - 1) as nat;
    same_front_reads_same(la, own, n);
    same_front_reads_same(front, la, la.len());
    let (d0, o0) = read_lines(own, n);
    let p = pa[n as int];
    assert(la[n as int] == text::chop_cr(p));
    assert(text::trim(none) =~= none);
    if p.len() > 0 {
        assert(own[n as int] == p);
        if p.last() == '\r' {
            assert(p =~= p.drop_last().push('\r'));
            feed_ignores_return(o0, p.drop_last());
        }
    } else {
        assert(p =~= none);
    }
    assert(read_lines(front, front.len()) == (devices_of(a), empty_block()));
    // The second list behind it.
    reads_on_afresh(front, lb, lb.len());
    let (d, open) = read_lines(lb, lb.len());
    if let Some(x) = finish(open) {
        assert((devices_of(a) + d).push(x) =~= devices_of(a) + d.push(x));
    }
}

/// Every device with the full key set is a keyboard.
pub open spec fn full_are_keyboards(list: Seq<DeviceView>) -> bool {
    forall|i: int|
        0 <= i < list.len() && (#[trigger] list[i]).full_keyboard ==> list[i].is_keyboard
}

proof fn with_device_keeps(done: Seq<DeviceView>, b: BlockView)
    requires
        full_are_keyboards(done),
    ensures
        full_are_keyboards(with_device(done, finish(b))),
{
    let all = with_device(done, finish(b));
    assert forall|i: int| 0 <= i < all.len() && (#[trigger] all[i]).full_keyboard implies
        all[i].is_keyboard by {
        if i < done.len() {
            assert(all[i] == done[i]);
        }
    }
}

proof fn read_full_are_keyboards(lines: Seq<Seq<char>>, n: nat)
    ensures
        full_are_keyboards(read_lines(lines, n).0),
    decreases n,
{
    if n > 0 {
        read_full_are_keyboards(lines, (n - 1) as nat);
        let (done, open) = read_lines(lines, (n - 1) as nat);
        with_device_keeps(done, open);
    }
}

/// Every device with the whole alphanumeric key set is a keyboard, whatever the list.
pub proof fn full_keyboards_are_keyboards(list: Seq<char>)
    ensures
        full_are_keyboards(devices_of(list)),
{
    let lines = text::lines(list);
    read_full_are_keyboards(lines, lines.len());
    let (done, open) = read_lines(lines, lines.len());
    with_device_keeps(done, open);
}

// ---------------------------------------------------------------------------
// Matching
// ---------------------------------------------------------------------------

/// How an `[ids]` section matches a device.
#[derive(Debug, Clone, Copy, PartialEq, Eq, Structural)]
pub enum MatchKind {
    NoMatch,
    Wildcard,
    Explicit,
}

/// An explicit match beats a wildcard, and that beats none.
pub open spec fn rank_of(m: MatchKind) -> nat {
    match m {
        MatchKind::NoMatch => 0,
        MatchKind::Wildcard => 1,
        MatchKind::Explicit => 2,
    }
}

impl MatchKind {
    /// An explicit match beats a wildcard, and that beats none.
    pub fn rank(self) -> (r: u8)
        ensures
            r == rank_of(self),
    {
        match self {
            MatchKind::NoMatch => 0,
            MatchKind::Wildcard => 1,
            MatchKind::Explicit => 2,
        }
    }
}

/// A connected device with how each config matches it.
#[derive(Debug)]
pub struct Connected {
    pub dev: InputDevice,
    /// The device reports pointer motion.
    pub pointer: bool,
    /// One match for each config, in their order.
    pub kinds: Vec<MatchKind>,
}

pub struct ConnectedView {
    pub dev: DeviceView,
    pub pointer: bool,
    pub kinds: Seq<MatchKind>,
}

impl View for Connected {
    type V = ConnectedView;

    open spec fn view(&self) -> ConnectedView {
        ConnectedView { dev: self.dev@, pointer: self.pointer, kinds: self.kinds@ }
    }
}

/// The config that governs a device among the first `n`: the first of those that match
/// it best.
pub open spec fn best_upto(kinds: Seq<MatchKind>, n: nat) -> Option<int>
    decreases n,
{
    if n == 0 {
        None
    } else {
        let before = best_upto(kinds, (n - 1) as nat);
        let rank = rank_of(kinds[n - 1]);
        if rank > 0 && (before is None || rank > rank_of(kinds[before->0])) {
            Some(n - 1)
        } else {
            before
        }
    }
}

/// The config that governs a device.
pub open spec fn best_config(kinds: Seq<MatchKind>) -> Option<int> {
    best_upto(kinds, kinds.len())
}

/// The strongest match of a device.
pub open spec fn best_kind(kinds: Seq<MatchKind>) -> MatchKind {
    match best_config(kinds) {
        Some(i) => kinds[i],
        None => MatchKind::NoMatch,
    }
}

/// The config that governs a device.
pub fn governing_config(kinds: &Vec<MatchKind>) -> (r: Option<usize>)
    ensures
        match r {
            Some(i) => i < kinds@.len() && best_config(kinds@) == Some(i as int),
            None => best_config(kinds@) is None,
        },
{
    let mut best: Option<usize> = None;
    let mut i: usize = 0;
    while i < kinds.len()
        invariant
            i <= kinds@.len(),
            match best {
                Some(b) => b < i && best_upto(kinds@, i as nat) == Some(b as int),
                None => best_upto(kinds@, i as nat) is None,
            },
        decreases kinds.len() - i,
    {
        let rank: u8 = kinds[i].rank();
        let better = match best {
            None => true,
            Some(b) => rank > kinds[b].rank(),
        };
        if rank > 0 && better {
            best = Some(i);
        }
        i = i + 1;
    }
    best
}

proof fn best_upto_is_best(kinds: Seq<MatchKind>, n: nat)
    requires
        n <= kinds.len(),
    ensures
        match best_upto(kinds, n) {
            Some(i) => {
                &&& 0 <= i < n
                &&& rank_of(kinds[i]) > 0
                &&& forall|j: int| 0 <= j < n ==> rank_of(#[trigger] kinds[j]) <= rank_of(kinds[i])
                &&& forall|j: int| 0 <= j < i ==> rank_of(#[trigger] kinds[j]) < rank_of(kinds[i])
            },
            None => forall|j: int| 0 <= j < n ==> #[trigger] kinds[j] == MatchKind::NoMatch,
        },
    decreases n,
{
    if n > 0 {
        best_upto_is_best(kinds, (n - 1) as nat);
    }
}

/// A device goes to a config that matches it at least as well as any other, to the first
/// of those, and to none only where none matches.
pub proof fn governing_config_matches_best(kinds: Seq<MatchKind>)
    ensures
        match best_config(kinds) {
            Some(i) => {
                &&& 0 <= i < kinds.len()
                &&& kinds[i] != MatchKind::NoMatch
                &&& forall|j: int|
                    0 <= j < kinds.len() ==> rank_of(#[trigger] kinds[j]) <= rank_of(kinds[i])
                &&& forall|j: int| 0 <= j < i ==> rank_of(#[trigger] kinds[j]) < rank_of(kinds[i])
            },
            None => forall|j: int|
                0 <= j < kinds.len() ==> #[trigger] kinds[j] == MatchKind::NoMatch,
        },
{
    best_upto_is_best(kinds, kinds.len());
}

// ---------------------------------------------------------------------------
// What is read of a device
// ---------------------------------------------------------------------------

/// A bitmap is read from its end: the last word holds the codes below sixty-four, and each
/// word in front of it the next sixty-four.
pub proof fn a_bitmap_is_read_from_its_end(words: Seq<u64>, w: u64, bit: u64)
    requires
        bit < 64,
    ensures
        key_set(words.push(w), bit as nat) == ((w >> bit) & 1u64 == 1u64),
        forall|code: nat| #[trigger]
            key_set(words.push(w), code + 64) == key_set(words, code),
        !key_set(Seq::empty(), bit as nat),
{
    let all = words.push(w);
    assert(all[all.len() - 1 - 0] == w);
    assert forall|code: nat| #[trigger] key_set(all, code + 64) == key_set(words, code) by {
        assert((code + 64) / 64 == code / 64 + 1);
        assert((code + 64) % 64 == code % 64);
        let group = code / 64;
        if group < words.len() {
            assert(all[all.len() - 1 - (group + 1)] == words[words.len() - 1 - group]);
        }
    }
}

/// A device is known only by both its ids. It is a full keyboard exactly where it has every
/// digit and every letter from Q to Y, and a keyboard where it is one or has a media key; a
/// device that said nothing of its keys is neither.
pub proof fn a_device_is_what_its_keys_say(b: BlockView)
    ensures
        ({
            let full = b.words is Some && b.words->0.len() > 0 && (forall|code: nat|
                2 <= code <= 11 ==> #[trigger] key_set(b.words->0, code)) && (forall|code: nat|
                16 <= code <= 21 ==> #[trigger] key_set(b.words->0, code));
            let media = b.words is Some && (key_set(b.words->0, 225) || key_set(b.words->0, 115)
                || key_set(b.words->0, 530) || key_set(b.words->0, 532) || key_set(
                b.words->0,
                248,
            ));
            let d = finish(b);
            &&& d is Some <==> b.vendor is Some && b.product is Some
            &&& d is Some ==> {
                &&& d->0.vendor == b.vendor->0
                &&& d->0.product == b.product->0
                &&& b.name is Some ==> d->0.name == b.name->0
                &&& b.name is None ==> d->0.name.len() == 0
                &&& d->0.full_keyboard <==> full
                &&& d->0.is_keyboard <==> full || media
                &&& d->0.devid() == b.vendor->0 + seq![':'] + b.product->0
            }
        }),
{
    reveal_strlit(":");
    assert(":"@ =~= seq![':']);
    if b.words is Some {
        let w = b.words->0;
        if has_keyboard_keys(w) {
            assert forall|code: nat| 2 <= code <= 11 implies #[trigger] key_set(w, code) by {
                assert(is_keyboard_key(code));
            }
            assert forall|code: nat| 16 <= code <= 21 implies #[trigger] key_set(w, code) by {
                assert(is_keyboard_key(code));
            }
        }
    }
}

/// The identity line gives the ids, made small: that of the last word which names one.
pub proof fn the_ids_are_read(b: BlockView, words: Seq<Seq<char>>, n: nat, i: int, x: Seq<char>)
    requires
        0 <= i < n <= words.len(),
    ensures
        words[i] == "Vendor="@ + x && (forall|j: int|
            i < j < n ==> !text::starts_with(#[trigger] words[j], "Vendor="@)) ==> feed_ids(
            b,
            words,
            n,
        ).vendor == Some(text::ascii_lower(x)),
        words[i] == "Product="@ + x && (forall|j: int|
            i < j < n ==> !text::starts_with(#[trigger] words[j], "Product="@)) ==> feed_ids(
            b,
            words,
            n,
        ).product == Some(text::ascii_lower(x)),
        feed_ids(b, words, n).name == b.name,
        feed_ids(b, words, n).words == b.words,
    decreases n,
{
    reveal_strlit("Vendor=");
    reveal_strlit("Product=");
    let w = words[n - 1];
    ids_touch_only_ids(b, words, n);
    if text::starts_with(w, "Vendor="@) {
        assert(w.subrange(0, 7)[0] == w[0]);
    }
    if text::starts_with(w, "Product="@) {
        assert(w.subrange(0, 8)[0] == w[0]);
    }
    text::stripping_takes_off_one_end(x, "Vendor="@);
    text::stripping_takes_off_one_end(x, "Product="@);
    if i < n - 1 {
        the_ids_are_read(b, words, (n - 1) as nat, i, x);
    }
}

proof fn ids_touch_only_ids(b: BlockView, words: Seq<Seq<char>>, n: nat)
    ensures
        feed_ids(b, words, n).name == b.name,
        feed_ids(b, words, n).words == b.words,
    decreases n,
{
    if n > 0 {
        ids_touch_only_ids(b, words, (n - 1) as nat);
    }
}

/// The name line gives the name without the quotes around it, and the key line the bitmap;
/// each leaves the rest alone, and a line of another kind says nothing.
pub proof fn each_line_says_its_part(b: BlockView, name: Seq<char>, rest: Seq<char>, line: Seq<char>)
    requires
        name.len() > 0,
        name[0] != '"',
        name.last() != '"',
    ensures
        feed(b, "N: Name="@ + (seq!['"'] + name + seq!['"'])) == (BlockView {
            name: Some(name),
            ..b
        }),
        feed(b, "B: KEY="@ + rest) == (BlockView {
            words: feed(b, "B: KEY="@ + rest).words,
            ..b
        }),
        feed(b, "B: KEY="@ + rest).words is Some,
        feed(b, "I:"@ + rest).name == b.name,
        feed(b, "I:"@ + rest).words == b.words,
        !text::starts_with(line, "I:"@) && !text::starts_with(line, "N: Name="@)
            && !text::starts_with(line, "B: KEY="@) ==> feed(b, line) == b,
{
    reveal_strlit("I:");
    reveal_strlit("N: Name=");
    reveal_strlit("B: KEY=");
    let quoted = seq!['"'] + name + seq!['"'];
    let named = "N: Name="@ + quoted;
    let keyed = "B: KEY="@ + rest;
    let ids = "I:"@ + rest;
    text::stripping_takes_off_one_end(quoted, "N: Name="@);
    text::stripping_takes_off_one_end(rest, "B: KEY="@);
    text::stripping_takes_off_one_end(rest, "I:"@);
    assert(!text::starts_with(named, "I:"@)) by {
        assert(named[0] == 'N');
        if text::starts_with(named, "I:"@) {
            assert(named.subrange(0, 2)[0] == named[0]);
        }
    }
    assert(!text::starts_with(keyed, "I:"@) && !text::starts_with(keyed, "N: Name="@)) by {
        assert(keyed[0] == 'B');
        if text::starts_with(keyed, "I:"@) {
            assert(keyed.subrange(0, 2)[0] == keyed[0]);
        }
        if text::starts_with(keyed, "N: Name="@) {
            assert(keyed.subrange(0, 8)[0] == keyed[0]);
        }
    }
    ids_touch_only_ids(b, text::words(rest), text::words(rest).len());
    assert(quoted[0] == '"' && quoted.last() == '"');
    text::trim_of_tight(quoted);
    let open = quoted.subrange(1, quoted.len() as int);
    assert(open =~= name.push('"'));
    assert(open[0] == name[0]);
    assert(unquote_start(open) == open);
    assert(unquote_start(quoted) == open);
    assert(open.drop_last() =~= name);
    assert(unquote_end(name) == name);
    assert(unquote_end(open) == name);
}

/// The numbers of a bitmap are those of the words, where all of them are numbers.
pub proof fn a_bitmap_has_all_its_words(words: Seq<Seq<char>>, n: nat, i: int)
    requires
        0 <= i < n <= words.len(),
        forall|k: int|
            0 <= k < n ==> text::parse_number(#[trigger] words[k], 16, u64::MAX as nat) is Some,
    ensures
        hex_words(words, n).len() == n,
        hex_words(words, n)[i] as nat == text::parse_number(words[i], 16, u64::MAX as nat)->0,
    decreases n,
{
    assert(text::parse_number(words[n - 1], 16, u64::MAX as nat) is Some);
    if n > 1 {
        a_bitmap_has_all_its_words(
            words,
            (n - 1) as nat,
            if i < n - 1 {
                i
            } else {
                0
            },
        );
    } else {
        assert(hex_words(words, 0).len() == 0);
    }
}

/// A blank line ends a block: the device of the block that stood open, where it has said who
/// it is, comes behind those there were, and the next block starts with nothing said. Any
/// other line belongs to the block that is open and finishes no device.
pub proof fn a_blank_line_ends_a_device(lines: Seq<Seq<char>>, n: nat)
    requires
        n < lines.len(),
    ensures
        ({
            let (done, open) = read_lines(lines, n);
            let (next, then_open) = read_lines(lines, (n + 1) as nat);
            let blank = forall|i: int|
                0 <= i < lines[n as int].len() ==> text::is_white(#[trigger] lines[n as int][i]);
            &&& blank && finish(open) is Some ==> next == done.push(finish(open)->0)
            &&& blank && finish(open) is None ==> next == done
            &&& blank ==> then_open == (BlockView {
                name: None,
                vendor: None,
                product: None,
                words: None,
            })
            &&& !blank ==> next == done && then_open == feed(open, lines[n as int])
        }),
{
    let line = lines[n as int];
    text::trimming_loses_only_white(line);
    text::trim_is_tight(line);
    let (a, b) = choose|a: int, b: int|
        #[trigger] text::frames(line, a, b) && text::trim(line) == line.subrange(a, b);
    let blank = forall|i: int| 0 <= i < line.len() ==> text::is_white(#[trigger] line[i]);
    if text::trim(line).len() > 0 {
        assert(line.subrange(a, b)[0] == line[a]);
        assert(!text::is_white(line[a]));
    } else {
        assert(a == b);
        assert forall|i: int| 0 <= i < line.len() implies text::is_white(#[trigger] line[i]) by {}
    }
}

/// An explicit match wins over every wildcard, wherever they stand; of several explicit
/// ones, or of several wildcards where none is explicit, the first wins.
pub proof fn an_explicit_match_wins(kinds: Seq<MatchKind>, i: int)
    requires
        0 <= i < kinds.len(),
    ensures
        kinds[i] == MatchKind::Explicit && (forall|j: int|
            0 <= j < i ==> #[trigger] kinds[j] != MatchKind::Explicit) ==> best_config(kinds)
            == Some(i),
        kinds[i] == MatchKind::Wildcard && (forall|j: int|
            0 <= j < kinds.len() ==> #[trigger] kinds[j] != MatchKind::Explicit) && (forall|j: int|
            0 <= j < i ==> #[trigger] kinds[j] == MatchKind::NoMatch) ==> best_config(kinds) == Some(
            i,
        ),
        (forall|j: int| 0 <= j < kinds.len() ==> #[trigger] kinds[j] == MatchKind::NoMatch)
            ==> best_config(kinds) is None,
{
    governing_config_matches_best(kinds);
    assert(rank_of(kinds[i]) <= 2);
    if best_config(kinds) is Some {
        let b = best_config(kinds)->0;
        assert(rank_of(kinds[b]) >= rank_of(kinds[i]));
        if kinds[i] == MatchKind::Explicit {
            assert(kinds[b] == MatchKind::Explicit);
        }
    }
}

} // verus!
