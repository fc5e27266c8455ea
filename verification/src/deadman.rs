//! The dead-man's switch.
//!
//! After write and reload, the privileged tool waits for a positive `keep` line.
//! Confirm means keep; anything else (timeout, a caller that died, garbage) reverts.
//! Waiting on the descriptor is done elsewhere: each thing that comes of it is handed
//! to [`await_keep`], which says whether to go on waiting.

use crate::strings;
use crate::text;
use vstd::prelude::*;

verus! {

/// The verdict after waiting for confirmation.
#[derive(Debug, Clone, Copy, PartialEq, Eq, Structural)]
pub enum Verdict {
    /// A `keep` line arrived in time.
    Keep,
    /// The deadline passed with no (complete) line.
    TimedOut,
    /// The descriptor closed (caller died) before confirming.
    Eof,
    /// A complete line arrived but it wasn't `keep`: a revert request.
    Refused,
}

/// What came of waiting once.
#[derive(Debug)]
pub enum Wait {
    /// The deadline passed.
    Expired,
    /// A signal interrupted the wait or the read.
    Interrupted,
    /// The descriptor could not be waited on or read.
    Broken,
    /// A read delivered these bytes; none means the other end is closed.
    Received(Vec<u8>),
}

/// Whether the wait goes on.
#[derive(Debug)]
pub enum Waiting {
    /// Wait on, with these bytes received so far.
    More(Vec<u8>),
    /// The wait is over.
    Over(Verdict),
}

pub enum WaitView {
    Expired,
    Interrupted,
    Broken,
    Received(Seq<u8>),
}

pub enum WaitingView {
    More(Seq<u8>),
    Over(Verdict),
}

impl View for Wait {
    type V = WaitView;

    open spec fn view(&self) -> WaitView {
        match *self {
            Wait::Expired => WaitView::Expired,
            Wait::Interrupted => WaitView::Interrupted,
            Wait::Broken => WaitView::Broken,
            Wait::Received(b) => WaitView::Received(b@),
        }
    }
}

impl View for Waiting {
    type V = WaitingView;

    open spec fn view(&self) -> WaitingView {
        match *self {
            Waiting::More(b) => WaitingView::More(b@),
            Waiting::Over(v) => WaitingView::Over(v),
        }
    }
}

/// Where the first line ends: the index of the first newline.
pub open spec fn line_end(buf: Seq<u8>) -> Option<int>
    decreases buf.len(),
{
    if buf.len() == 0 {
        None
    } else {
        match line_end(buf.drop_last()) {
            Some(p) => Some(p),
            None => if buf.last() == 0x0a {
                Some(buf.len() - 1)
            } else {
                None
            },
        }
    }
}

/// The first line of the bytes, without the carriage return that may end it.
pub open spec fn first_line(buf: Seq<u8>) -> Option<Seq<u8>> {
    match line_end(buf) {
        None => None,
        Some(p) => {
            let line = buf.subrange(0, p);
            Some(
                if line.len() > 0 && line.last() == 0x0d {
                    line.drop_last()
                } else {
                    line
                },
            )
        },
    }
}

/// The bytes of the confirmation.
pub open spec fn keep_word() -> Seq<u8> {
    text::bytes("keep"@)
}

/// What the bytes received so far decide, if anything: a complete line, or more bytes
/// than anything legitimate sends.
pub open spec fn judge(buf: Seq<u8>) -> WaitingView {
    match first_line(buf) {
        Some(line) => WaitingView::Over(
            if line == keep_word() {
                Verdict::Keep
            } else {
                Verdict::Refused
            },
        ),
        None => if buf.len() > 1024 {
            WaitingView::Over(Verdict::Refused)
        } else {
            WaitingView::More(buf)
        },
    }
}

/// What one wait makes of the bytes received before it.
pub open spec fn hear(buf: Seq<u8>, ev: WaitView) -> WaitingView {
    match ev {
        WaitView::Expired => WaitingView::Over(Verdict::TimedOut),
        WaitView::Interrupted => WaitingView::More(buf),
        WaitView::Broken => WaitingView::Over(Verdict::Eof),
        WaitView::Received(chunk) => if chunk.len() == 0 {
            WaitingView::Over(Verdict::Eof)
        } else {
            judge(buf + chunk)
        },
    }
}

/// Where the first newline is.
fn find_line_end(buf: &Vec<u8>) -> (r: Option<usize>)
    ensures
        match r {
            Some(p) => line_end(buf@) == Some(p as int) && p < buf@.len(),
            None => line_end(buf@) is None,
        },
{
    let mut i: usize = 0;
    while i < buf.len()
        invariant
            i <= buf@.len(),
            line_end(buf@.subrange(0, i as int)) is None,
        decreases buf.len() - i,
    {
        assert(buf@.subrange(0, i + 1).drop_last() == buf@.subrange(0, i as int));
        if buf[i] == 0x0a {
            proof {
                line_end_is_stable(buf@, i + 1);
            }
            return Some(i);
        }
        i = i + 1;
    }
    assert(buf@.subrange(0, i as int) == buf@);
    None
}

/// More bytes do not move the end of the first line.
proof fn line_end_is_stable(buf: Seq<u8>, n: int)
    requires
        0 <= n <= buf.len(),
        line_end(buf.subrange(0, n)) is Some,
    ensures
        line_end(buf) == line_end(buf.subrange(0, n)),
    decreases buf.len(),
{
    if n < buf.len() {
        assert(buf.drop_last().subrange(0, n) == buf.subrange(0, n));
        line_end_is_stable(buf.drop_last(), n);
    } else {
        assert(buf.subrange(0, n) == buf);
    }
}

/// The end of the first line is a newline within the bytes, with none before it.
proof fn line_end_is_first(buf: Seq<u8>)
    ensures
        match line_end(buf) {
            Some(p) => 0 <= p < buf.len() && buf[p] == 0x0a && forall|j: int|
                0 <= j < p ==> #[trigger] buf[j] != 0x0a,
            None => forall|j: int| 0 <= j < buf.len() ==> #[trigger] buf[j] != 0x0a,
        },
    decreases buf.len(),
{
    if buf.len() > 0 {
        let t = buf.drop_last();
        line_end_is_first(t);
        assert forall|j: int| 0 <= j < t.len() implies t[j] == buf[j] by {}
        match line_end(t) {
            Some(p) => {
                assert(buf[p] == t[p]);
                assert forall|j: int| 0 <= j < p implies #[trigger] buf[j] != 0x0a by {
                    assert(t[j] != 0x0a);
                }
            },
            None => {
                assert forall|j: int| 0 <= j < t.len() implies #[trigger] buf[j] != 0x0a by {
                    assert(t[j] != 0x0a);
                }
            },
        }
    }
}

/// Take in what came of one wait, the bytes of earlier ones being `heard`. Only an exact
/// `keep` line keeps; every other end of the wait is a revert.
pub fn await_keep(heard: Vec<u8>, ev: Wait) -> (r: Waiting)
    ensures
        r@ == hear(heard@, ev@),
{
    let mut buf = heard;
    match ev {
        Wait::Expired => Waiting::Over(Verdict::TimedOut),
        Wait::Interrupted => Waiting::More(buf),
        Wait::Broken => Waiting::Over(Verdict::Eof),
        Wait::Received(chunk) => {
            if chunk.len() == 0 {
                return Waiting::Over(Verdict::Eof);
            }
            let ghost all = buf@ + chunk@;
            let mut more = chunk;
            buf.append(&mut more);
            assert(buf@ == all);
            match find_line_end(&buf) {
                Some(p) => {
                    let end: usize = if p > 0 && buf[p - 1] == 0x0d { p - 1 } else { p };
                    let line = strings::slice_bytes(buf.as_slice(), 0, end);
                    assert(Some(line@) == first_line(all)) by {
                        if end < p {
                            assert(all.subrange(0, p as int).drop_last() == line@);
                        }
                    }
                    let word = "keep".as_bytes();
                    let kept = line.len() == word.len() && strings::bytes_at(
                        line.as_slice(),
                        word,
                        0,
                    );
                    assert(kept <==> line@ == keep_word()) by {
                        assert(line@.subrange(0, line@.len() as int) == line@);
                    }
                    if kept {
                        Waiting::Over(Verdict::Keep)
                    } else {
                        Waiting::Over(Verdict::Refused)
                    }
                },
                None => if buf.len() > 1024 {
                    Waiting::Over(Verdict::Refused)
                } else {
                    Waiting::More(buf)
                },
            }
        },
    }
}

// ---------------------------------------------------------------------------
// The wait as a whole
// ---------------------------------------------------------------------------

/// Where a whole wait stands after the events.
pub open spec fn listen(evs: Seq<WaitView>) -> WaitingView
    decreases evs.len(),
{
    if evs.len() == 0 {
        WaitingView::More(Seq::empty())
    } else {
        match listen(evs.drop_last()) {
            WaitingView::More(buf) => hear(buf, evs.last()),
            over => over,
        }
    }
}

/// All the bytes that the events delivered.
pub open spec fn delivered(evs: Seq<WaitView>) -> Seq<u8>
    decreases evs.len(),
{
    if evs.len() == 0 {
        Seq::empty()
    } else {
        delivered(evs.drop_last()) + (match evs.last() {
            WaitView::Received(b) => b,
            _ => Seq::empty(),
        })
    }
}

/// While the wait goes on, it holds all the bytes delivered, and they are no line yet.
proof fn waiting_holds_delivered(evs: Seq<WaitView>)
    ensures
        match listen(evs) {
            WaitingView::More(buf) => buf == delivered(evs) && first_line(buf) is None,
            WaitingView::Over(v) => v == Verdict::Keep ==> first_line(delivered(evs)) == Some(
                keep_word(),
            ),
        },
    decreases evs.len(),
{
    if evs.len() > 0 {
        let t = evs.drop_last();
        waiting_holds_delivered(t);
        match listen(t) {
            WaitingView::More(buf) => {
                assert(delivered(t) + Seq::<u8>::empty() =~= delivered(t));
            },
            WaitingView::Over(v) => {
                let d = delivered(t);
                let all = delivered(evs);
                if v == Verdict::Keep {
                    assert(all.subrange(0, d.len() as int) =~= d);
                    line_end_is_stable(all, d.len() as int);
                    line_end_is_first(d);
                    let p = line_end(d)->0;
                    assert(all.subrange(0, p) =~= d.subrange(0, p));
                }
            },
        }
    }
}

/// Nothing but a `keep` line keeps: where a wait ends in `Keep`, the first line that was
/// delivered is exactly `keep`.
pub proof fn only_a_keep_line_keeps(evs: Seq<WaitView>)
    requires
        listen(evs) == WaitingView::Over(Verdict::Keep),
    ensures
        first_line(delivered(evs)) == Some(keep_word()),
{
    waiting_holds_delivered(evs);
}

/// A line that is `keep` keeps, in however many pieces it arrives: where every event
/// delivers bytes or is an interruption, and the first line is `keep`, the verdict is
/// `Keep`.
pub proof fn a_keep_line_keeps_in_any_pieces(evs: Seq<WaitView>)
    requires
        forall|i: int|
            0 <= i < evs.len() ==> #[trigger] evs[i] is Interrupted || (evs[i] is Received
                && evs[i]->Received_0.len() > 0),
        first_line(delivered(evs)) == Some(keep_word()),
    ensures
        listen(evs) == WaitingView::Over(Verdict::Keep),
    decreases evs.len(),
{
    if evs.len() > 0 {
        let t = evs.drop_last();
        let d = delivered(t);
        let all = delivered(evs);
        assert forall|i: int| 0 <= i < t.len() implies #[trigger] t[i] is Interrupted || (
        t[i] is Received && t[i]->Received_0.len() > 0) by {
            assert(t[i] == evs[i]);
        }
        assert(evs[evs.len() - 1] == evs.last());
        assert(all.subrange(0, d.len() as int) =~= d);
        if line_end(d) is Some {
            line_end_is_stable(all, d.len() as int);
            line_end_is_first(d);
            let p = line_end(d)->0;
            assert(all.subrange(0, p) =~= d.subrange(0, p));
            a_keep_line_keeps_in_any_pieces(t);
        } else {
            pieces_before_the_line_wait(t, all);
            waiting_holds_delivered(t);
            assert(d + Seq::<u8>::empty() =~= d);
        }
    } else {
        assert(line_end(Seq::<u8>::empty()) is None);
    }
}

/// Pieces that stop short of the end of a `keep` line leave the wait going on.
proof fn pieces_before_the_line_wait(evs: Seq<WaitView>, all: Seq<u8>)
    requires
        forall|i: int|
            0 <= i < evs.len() ==> #[trigger] evs[i] is Interrupted || (evs[i] is Received
                && evs[i]->Received_0.len() > 0),
        delivered(evs).len() <= all.len(),
        all.subrange(0, delivered(evs).len() as int) == delivered(evs),
        line_end(delivered(evs)) is None,
        first_line(all) == Some(keep_word()),
    ensures
        listen(evs) is More,
    decreases evs.len(),
{
    if evs.len() > 0 {
        let t = evs.drop_last();
        let d = delivered(evs);
        let e = delivered(t);
        assert forall|i: int| 0 <= i < t.len() implies #[trigger] t[i] is Interrupted || (
        t[i] is Received && t[i]->Received_0.len() > 0) by {
            assert(t[i] == evs[i]);
        }
        assert(evs[evs.len() - 1] == evs.last());
        assert(d.subrange(0, e.len() as int) =~= e);
        assert(all.subrange(0, e.len() as int) =~= e);
        if line_end(e) is Some {
            line_end_is_stable(d, e.len() as int);
        }
        pieces_before_the_line_wait(t, all);
        waiting_holds_delivered(t);
        assert(e + Seq::<u8>::empty() =~= e);
        keep_word_is_short();
        line_end_is_first(all);
        line_end_is_first(d);
        let p = line_end(all)->0;
        assert(all.subrange(0, p).len() <= 5);
        assert(d.len() <= p) by {
            if d.len() > p {
                assert(d[p] == all[p]);
            }
        }
    }
}

/// The confirmation is four bytes.
proof fn keep_word_is_short()
    ensures
        keep_word().len() == 4,
{
    reveal_strlit("keep");
    assert(vstd::utf8::is_ascii_chars("keep"@));
    vstd::utf8::is_ascii_chars_encode_utf8("keep"@);
}

proof fn keep_ends_in_a_letter()
    ensures
        keep_word().len() == 4,
        keep_word().last() != 0x0d,
        text::bytes("keep\n"@) == keep_word().push(0x0a),
{
    reveal_strlit("keep");
    reveal_strlit("keep\n");
    assert(vstd::utf8::is_ascii_chars("keep"@));
    vstd::utf8::is_ascii_chars_encode_utf8("keep"@);
    assert(vstd::utf8::is_ascii_chars("keep\n"@));
    vstd::utf8::is_ascii_chars_encode_utf8("keep\n"@);
    assert(text::bytes("keep\n"@) =~= keep_word().push(0x0a));
}

/// The confirmation that is sent is the one that is waited for: however it is cut into
/// pieces on the way, it keeps.
pub proof fn what_is_sent_keeps(evs: Seq<WaitView>)
    requires
        forall|i: int|
            0 <= i < evs.len() ==> #[trigger] evs[i] is Interrupted || (evs[i] is Received
                && evs[i]->Received_0.len() > 0),
        delivered(evs) == text::bytes("keep\n"@),
    ensures
        listen(evs) == WaitingView::Over(Verdict::Keep),
{
    keep_ends_in_a_letter();
    let all = delivered(evs);
    line_end_is_first(all);
    assert(all[4] == 0x0a);
    reveal_strlit("keep");
    vstd::utf8::is_ascii_chars_encode_utf8("keep"@);
    assert(line_end(all) == Some(4int));
    assert(all.subrange(0, 4) =~= keep_word());
    a_keep_line_keeps_in_any_pieces(evs);
}

/// How a wait ends, and when it goes on: a first line that is `keep`, with or without a
/// carriage return, keeps, and any other refuses; the deadline is a timeout; the other end
/// closing, or a descriptor that is no good, is the end of input. Bytes without a line are
/// waited on until they are more than anyone sends, and an interruption changes nothing.
pub proof fn a_wait_ends_by_what_was_heard(buf: Seq<u8>, chunk: Seq<u8>, line: Seq<u8>, rest: Seq<u8>)
    requires
        !line.contains(0x0a),
        chunk.len() > 0,
        buf + chunk == line.push(0x0a) + rest || !(buf + chunk).contains(0x0a),
    ensures
        hear(buf, WaitView::Expired) == WaitingView::Over(Verdict::TimedOut),
        hear(buf, WaitView::Broken) == WaitingView::Over(Verdict::Eof),
        hear(buf, WaitView::Received(Seq::empty())) == WaitingView::Over(Verdict::Eof),
        hear(buf, WaitView::Interrupted) == WaitingView::More(buf),
        buf + chunk == line.push(0x0a) + rest && (line == text::bytes("keep"@) || line
            == text::bytes("keep"@).push(0x0d)) ==> hear(buf, WaitView::Received(chunk))
            == WaitingView::Over(Verdict::Keep),
        buf + chunk == line.push(0x0a) + rest && line != text::bytes("keep"@) && line
            != text::bytes("keep"@).push(0x0d) ==> hear(buf, WaitView::Received(chunk))
            == WaitingView::Over(Verdict::Refused),
        !(buf + chunk).contains(0x0a) && (buf + chunk).len() <= 1024 ==> hear(
            buf,
            WaitView::Received(chunk),
        ) == WaitingView::More(buf + chunk),
        !(buf + chunk).contains(0x0a) && (buf + chunk).len() > 1024 ==> hear(
            buf,
            WaitView::Received(chunk),
        ) == WaitingView::Over(Verdict::Refused),
{
    let all = buf + chunk;
    line_end_is_first(all);
    keep_ends_in_a_letter();
    let keep = text::bytes("keep"@);
    if all == line.push(0x0a) + rest {
        let n = line.len() as int;
        assert(all[n] == 0x0a);
        assert forall|j: int| 0 <= j < n implies #[trigger] all[j] != 0x0a by {
            assert(all[j] == line[j]);
            assert(line.contains(line[j]));
        }
        assert(line_end(all) == Some(n));
        assert(all.subrange(0, n) =~= line);
        if line.len() > 0 && line.last() == 0x0d {
            assert(line =~= line.drop_last().push(0x0d));
            if line == keep.push(0x0d) {
                assert(line.drop_last() =~= keep);
            }
        }
    }
    if !all.contains(0x0a) {
        if let Some(p) = line_end(all) {
            assert(all.contains(all[p]));
        }
    }
}

} // verus!
