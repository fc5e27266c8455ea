//! Unbuffered, deadline-aware protocol input and output.
//!
//! Reads have a deadline, so that a stalled client cannot hold a privileged process
//! forever, and protocol writes never fail: if the peer is gone, the message has no
//! reader and the revert must proceed. The descriptors are worked on elsewhere; here
//! stands what to do after each outcome.

use crate::fault::Fault;
use crate::fault::FaultKind;
use crate::fault::FaultView;
use crate::strings;
use crate::text;
use vstd::prelude::*;

verus! {

/// A reader with an absolute deadline, in nanoseconds of some clock.
#[derive(Debug, Clone, Copy, PartialEq, Eq, Structural)]
pub struct FdReader {
    pub deadline: u128,
}

/// What came of one attempt to read.
#[derive(Debug)]
pub enum ReadEvent {
    /// The deadline has passed, before or while waiting.
    Expired,
    /// Waiting or reading failed.
    Failed(Fault),
    /// A read delivered this many bytes.
    Read(usize),
}

/// What to do after an attempt to read.
#[derive(Debug, PartialEq, Eq)]
pub enum ReadStep {
    /// Try again with the time that is left.
    Again,
    /// Hand this many bytes to the caller.
    Deliver(usize),
    /// Fail.
    Fail(Fault),
}

pub enum ReadEventView {
    Expired,
    Failed(FaultView),
    Read(nat),
}

pub enum ReadStepView {
    Again,
    Deliver(nat),
    Fail(FaultView),
}

impl View for ReadEvent {
    type V = ReadEventView;

    open spec fn view(&self) -> ReadEventView {
        match *self {
            ReadEvent::Expired => ReadEventView::Expired,
            ReadEvent::Failed(f) => ReadEventView::Failed(f@),
            ReadEvent::Read(n) => ReadEventView::Read(n as nat),
        }
    }
}

impl View for ReadStep {
    type V = ReadStepView;

    open spec fn view(&self) -> ReadStepView {
        match *self {
            ReadStep::Again => ReadStepView::Again,
            ReadStep::Deliver(n) => ReadStepView::Deliver(n as nat),
            ReadStep::Fail(f) => ReadStepView::Fail(f@),
        }
    }
}

/// The failure of a read whose deadline has passed.
pub open spec fn deadline_passed() -> FaultView {
    FaultView { kind: FaultKind::TimedOut, text: "request deadline passed"@ }
}

/// What to do after an attempt to read: interruptions are retried, anything else that
/// failed fails.
pub open spec fn after_read(ev: ReadEventView) -> ReadStepView {
    match ev {
        ReadEventView::Expired => ReadStepView::Fail(deadline_passed()),
        ReadEventView::Failed(f) => if f.kind == FaultKind::Interrupted {
            ReadStepView::Again
        } else {
            ReadStepView::Fail(f)
        },
        ReadEventView::Read(n) => ReadStepView::Deliver(n),
    }
}

/// How long one wait may take, in milliseconds, with so many nanoseconds left.
pub open spec fn poll_millis(left: nat) -> int {
    if left / 1_000_000 <= i32::MAX {
        left as int / 1_000_000
    } else {
        i32::MAX as int
    }
}

/// The nanoseconds from `now` to the deadline; none once it has passed.
pub open spec fn time_left(deadline: int, now: int) -> int {
    if now < deadline {
        deadline - now
    } else {
        0
    }
}

impl FdReader {
    /// A reader that gives up `timeout` nanoseconds after `now`.
    pub fn new(now: u128, timeout: u128) -> (r: FdReader)
        requires
            now + timeout <= u128::MAX,
        ensures
            r.deadline == now + timeout,
    {
        FdReader { deadline: now + timeout }
    }

    /// The nanoseconds left at `now`; none once the deadline has passed.
    pub fn left(&self, now: u128) -> (r: u128)
        ensures
            r == time_left(self.deadline as int, now as int),
    {
        if now < self.deadline {
            self.deadline - now
        } else {
            0
        }
    }

    /// What to do after an attempt to read.
    pub fn read(&self, ev: ReadEvent) -> (r: ReadStep)
        ensures
            r@ == after_read(ev@),
    {
        match ev {
            ReadEvent::Expired => ReadStep::Fail(
                Fault::new(FaultKind::TimedOut, "request deadline passed"),
            ),
            ReadEvent::Failed(f) => if f.kind == FaultKind::Interrupted {
                ReadStep::Again
            } else {
                ReadStep::Fail(f)
            },
            ReadEvent::Read(n) => ReadStep::Deliver(n),
        }
    }
}

/// The milliseconds to wait for input with so many nanoseconds left.
pub fn poll_timeout(left: u128) -> (r: i32)
    ensures
        r == poll_millis(left as nat),
{
    let ms: u128 = left / 1_000_000;
    if ms <= 0x7fff_ffff {
        ms as i32
    } else {
        i32::MAX
    }
}

/// One protocol line on its way out.
#[derive(Debug)]
pub struct LineOut {
    pub buf: Vec<u8>,
    pub off: usize,
}

/// What came of one attempt to write.
#[derive(Debug, Clone, Copy, PartialEq, Eq, Structural)]
pub enum WriteEvent {
    /// This many bytes were taken.
    Wrote(usize),
    /// A signal interrupted the write.
    Interrupted,
    /// The peer is gone, or the descriptor is no good.
    Gone,
}

/// What is still to be written after an attempt to write the rest of a line, and whether to
/// go on.
pub open spec fn after_write(rest: Seq<u8>, ev: WriteEvent) -> (Seq<u8>, bool) {
    match ev {
        WriteEvent::Wrote(n) => if n > 0 {
            (rest.subrange(n as int, rest.len() as int), n < rest.len())
        } else {
            (rest, false)
        },
        WriteEvent::Interrupted => (rest, rest.len() > 0),
        WriteEvent::Gone => (rest, false),
    }
}

impl LineOut {
    /// What is still to be written.
    pub open spec fn rest(self) -> Seq<u8> {
        self.buf@.subrange(self.off as int, self.buf@.len() as int)
    }

    /// The line is within its buffer.
    pub open spec fn wf(self) -> bool {
        self.off <= self.buf@.len()
    }

    /// The bytes to hand to the next write.
    pub fn pending(&self) -> (r: Vec<u8>)
        requires
            self.wf(),
        ensures
            r@ == self.rest(),
    {
        strings::slice_bytes(self.buf.as_slice(), self.off, self.buf.len())
    }

    /// Take in what came of a write, and say whether to write on. Every failure is
    /// swallowed: there is no reader left to tell.
    pub fn wrote(self, ev: WriteEvent) -> (r: (LineOut, bool))
        requires
            self.wf(),
            ev matches WriteEvent::Wrote(n) ==> n <= self.rest().len(),
        ensures
            r.0.wf(),
            r.0.buf@ == self.buf@,
            (r.0.rest(), r.1) == after_write(self.rest(), ev),
            r.0.off == self.off + (self.rest().len() - r.0.rest().len()),
    {
        match ev {
            WriteEvent::Wrote(n) => if n > 0 {
                let len: usize = self.buf.len();
                let off: usize = self.off + n;
                let more = off < len;
                let out = LineOut { buf: self.buf, off };
                assert(out.rest() =~= self.rest().subrange(n as int, self.rest().len() as int));
                (out, more)
            } else {
                (self, false)
            },
            WriteEvent::Interrupted => {
                let more = self.off < self.buf.len();
                (self, more)
            },
            WriteEvent::Gone => (self, false),
        }
    }
}

/// The bytes of one protocol line.
pub open spec fn line_bytes(line: Seq<char>) -> Seq<u8> {
    text::bytes(line).push(0x0a)
}

/// A protocol line ready to be written: the text and a newline.
pub fn write_line(line: &str) -> (r: LineOut)
    ensures
        r.wf(),
        r.buf@ == line_bytes(line@),
        r.off == 0,
        r.rest() == line_bytes(line@),
{
    let src = line.as_bytes();
    let mut buf = strings::slice_bytes(src, 0, src.len());
    assert(buf@ =~= text::bytes(line@));
    buf.push(0x0a);
    let r = LineOut { buf, off: 0 };
    assert(r.rest() =~= r.buf@);
    r
}

/// A request line being read, byte by byte so that no payload is consumed with it.
#[derive(Debug)]
pub struct LineIn {
    pub line: Vec<u8>,
}

/// What one more byte makes of a request line.
#[derive(Debug)]
pub enum LineStep {
    /// Read on.
    More(LineIn),
    /// The line is complete.
    Line(String),
    /// No request is that long.
    TooLong(Fault),
    /// The input ended in front of the newline.
    CutShort(Fault),
}

pub enum LineStepView {
    More(Seq<u8>),
    Line(Seq<char>),
    TooLong(FaultView),
    CutShort(FaultView),
}

impl View for LineStep {
    type V = LineStepView;

    open spec fn view(&self) -> LineStepView {
        match *self {
            LineStep::More(l) => LineStepView::More(l.line@),
            LineStep::Line(s) => LineStepView::Line(s@),
            LineStep::TooLong(f) => LineStepView::TooLong(f@),
            LineStep::CutShort(f) => LineStepView::CutShort(f@),
        }
    }
}

/// The failure of a request line that does not end.
pub open spec fn line_too_long() -> FaultView {
    FaultView { kind: FaultKind::InvalidData, text: "request line too long"@ }
}

/// The failure of an input that ends too early.
pub open spec fn ends_early() -> FaultView {
    FaultView { kind: FaultKind::UnexpectedEof, text: "failed to fill whole buffer"@ }
}

/// The failure of an input, line or payload, that ends before all of it was read.
pub fn cut_short() -> (r: Fault)
    ensures
        r@ == ends_early(),
{
    Fault::new(FaultKind::UnexpectedEof, "failed to fill whole buffer")
}

/// What one more byte makes of a request line.
pub open spec fn next_byte(line: Seq<u8>, b: u8) -> LineStepView {
    if b == 0x0a {
        LineStepView::Line(strings::lossy_text(line))
    } else if line.len() + 1 > 256 {
        LineStepView::TooLong(line_too_long())
    } else {
        LineStepView::More(line.push(b))
    }
}

impl LineIn {
    /// A line of which nothing is read yet.
    pub fn new() -> (r: LineIn)
        ensures
            r.line@ == Seq::<u8>::empty(),
    {
        LineIn { line: Vec::new() }
    }

    /// Take in one more byte.
    pub fn push(self, b: u8) -> (r: LineStep)
        ensures
            r@ == next_byte(self.line@, b),
    {
        if b == 0x0a {
            return LineStep::Line(strings::from_utf8_lossy(self.line.as_slice()));
        }
        let mut line = self.line;
        line.push(b);
        if line.len() > 256 {
            LineStep::TooLong(Fault::new(FaultKind::InvalidData, "request line too long"))
        } else {
            LineStep::More(LineIn { line })
        }
    }

    /// Take in that the input has ended: a line without its newline is none.
    pub fn end(self) -> (r: LineStep)
        ensures
            r@ == LineStepView::CutShort(ends_early()),
    {
        LineStep::CutShort(cut_short())
    }
}

/// What a request line has become after the bytes.
pub open spec fn read_line(bytes: Seq<u8>) -> LineStepView
    decreases bytes.len(),
{
    if bytes.len() == 0 {
        LineStepView::More(Seq::empty())
    } else {
        match read_line(bytes.drop_last()) {
            LineStepView::More(line) => next_byte(line, bytes.last()),
            over => over,
        }
    }
}

/// What becomes of a request line when the input holds the bytes and then ends.
pub open spec fn read_to_end(bytes: Seq<u8>) -> LineStepView {
    match read_line(bytes) {
        LineStepView::More(_) => LineStepView::CutShort(ends_early()),
        over => over,
    }
}

proof fn an_open_line_has_no_newline(bytes: Seq<u8>)
    ensures
        read_line(bytes) is More || read_line(bytes) is Line || read_line(bytes) is TooLong,
        read_line(bytes) is Line ==> bytes.contains(0x0a),
    decreases bytes.len(),
{
    if bytes.len() > 0 {
        let front = bytes.drop_last();
        an_open_line_has_no_newline(front);
        if read_line(front) is Line {
            let i = choose|i: int| 0 <= i < front.len() && front[i] == 0x0a;
            assert(bytes[i] == 0x0a);
        } else if read_line(front) is More {
            assert(bytes[bytes.len() - 1] == bytes.last());
        }
    }
}

/// An input that ends without a newline gives no request, whatever it holds.
pub proof fn no_request_without_a_newline(bytes: Seq<u8>)
    requires
        !bytes.contains(0x0a),
    ensures
        read_to_end(bytes) is CutShort || read_to_end(bytes) is TooLong,
{
    an_open_line_has_no_newline(bytes);
}

/// A request line of at most two hundred and fifty-six bytes is read whole: the bytes
/// without a newline leave it open, and the newline completes it.
pub proof fn request_line_is_read_whole(line: Seq<u8>)
    requires
        line.len() <= 256,
        !line.contains(0x0a),
    ensures
        read_line(line) == LineStepView::More(line),
        read_line(line.push(0x0a)) == LineStepView::Line(strings::lossy_text(line)),
    decreases line.len(),
{
    assert(line.push(0x0a).drop_last() =~= line);
    if line.len() > 0 {
        let t = line.drop_last();
        assert forall|i: int| 0 <= i < t.len() implies t[i] != 0x0a by {
            assert(line.contains(line[i]));
        }
        request_line_is_read_whole(t);
        assert(line.contains(line[line.len() - 1]));
        assert(t.push(line.last()) =~= line);
    } else {
        assert(line =~= Seq::<u8>::empty());
    }
}

/// A read gives up at the deadline and on a real failure, tries again when it was only
/// interrupted, and hands out what arrived.
pub proof fn a_read_gives_up_only_for_a_reason(ev: ReadEventView)
    ensures
        after_read(ev) is Again <==> ev is Failed && ev->Failed_0.kind == FaultKind::Interrupted,
        ev is Expired ==> after_read(ev) is Fail && after_read(ev)->Fail_0.kind
            == FaultKind::TimedOut,
        ev is Failed && ev->Failed_0.kind != FaultKind::Interrupted ==> after_read(ev)
            == ReadStepView::Fail(ev->Failed_0),
        ev is Read ==> after_read(ev) == ReadStepView::Deliver(ev->Read_0),
{
}

/// A wait never lasts beyond the deadline, and falls short of it by less than a millisecond
/// as far as the system can wait at all.
pub proof fn a_wait_ends_with_the_deadline(left: nat)
    ensures
        0 <= poll_millis(left) <= i32::MAX,
        poll_millis(left) * 1_000_000 <= left,
        poll_millis(left) < i32::MAX ==> left < (poll_millis(left) + 1) * 1_000_000,
{
}

/// A request line ends at its newline, is given up when it is longer than any request, and
/// else grows by the byte.
pub proof fn a_line_grows_to_its_newline(line: Seq<u8>, b: u8)
    ensures
        next_byte(line, b) is Line <==> b == 0x0a,
        b == 0x0a ==> next_byte(line, b) == LineStepView::Line(strings::lossy_text(line)),
        b != 0x0a && line.len() < 256 ==> next_byte(line, b) == LineStepView::More(line.push(b)),
        b != 0x0a && line.len() >= 256 ==> next_byte(line, b) is TooLong,
{
}

/// A deadline comes nearer by the time that passes, and once it is there no time is left.
pub proof fn time_runs_to_the_deadline(deadline: int, now: int, later: int)
    requires
        now <= later,
    ensures
        later <= deadline ==> time_left(deadline, now) == time_left(deadline, later) + (later
            - now),
        now >= deadline ==> time_left(deadline, now) == 0,
        now < deadline ==> now + time_left(deadline, now) == deadline,
{
}

/// A line is written byte by byte in its order: a write takes its bytes off the front and it
/// goes on while something is left, a signal takes nothing and is no reason to stop, and a
/// peer that is gone or takes nothing is.
pub proof fn a_line_is_written_in_order(front: Seq<u8>, back: Seq<u8>)
    requires
        front.len() <= usize::MAX,
    ensures
        front.len() > 0 ==> after_write(front + back, WriteEvent::Wrote(front.len() as usize)) == (
            back,
            back.len() > 0,
        ),
        after_write(front, WriteEvent::Interrupted) == (front, front.len() > 0),
        after_write(front, WriteEvent::Gone) == (front, false),
        after_write(front, WriteEvent::Wrote(0)) == (front, false),
{
    let all = front + back;
    assert(all.subrange(front.len() as int, all.len() as int) =~= back);
}

/// An input that ends early is told from every other failure by its kind.
pub proof fn an_early_end_is_told()
    ensures
        ends_early().kind == FaultKind::UnexpectedEof,
        ends_early().text.len() > 0,
{
    reveal_strlit("failed to fill whole buffer");
}

/// A line is sent as its bytes with a newline behind them, and is read back as it was where
/// it is no longer than a request may be.
pub proof fn a_line_is_sent_with_its_newline(line: Seq<char>)
    ensures
        line_bytes(line).len() == text::bytes(line).len() + 1,
        line_bytes(line).last() == 0x0a,
        text::bytes(line).len() <= 256 && !text::bytes(line).contains(0x0a) ==> read_line(
            line_bytes(line),
        ) == LineStepView::Line(strings::lossy_text(text::bytes(line))),
{
    if text::bytes(line).len() <= 256 && !text::bytes(line).contains(0x0a) {
        request_line_is_read_whole(text::bytes(line));
    }
}

} // verus!
