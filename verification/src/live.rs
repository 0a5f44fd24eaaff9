//! The control mode of `tmux`: lines, and the bytes of panes.
use crate::text::{begins, copy_bytes, find_byte, index_of, same_bytes, starts_with};
use vstd::prelude::*;
use vstd::slice::slice_subrange;
use vstd::string::*;
use vstd::utf8::encode_utf8;

verus! {

/// What a line says.
#[derive(Debug)]
pub enum Event {
    /// A pane wrote data.
    Output { pane: Vec<u8>, data: Vec<u8> },
    /// The layout changed.
    Resync,
    /// The connection ends.
    Exit,
    Ignore,
}

/// The model of [`Event`].
pub ghost enum EventView {
    Output { pane: Seq<u8>, data: Seq<u8> },
    Resync,
    Exit,
    Ignore,
}

impl View for Event {
    type V = EventView;

    open spec fn view(&self) -> EventView {
        match self {
            Event::Output { pane, data } => EventView::Output { pane: pane@, data: data@ },
            Event::Resync => EventView::Resync,
            Event::Exit => EventView::Exit,
            Event::Ignore => EventView::Ignore,
        }
    }
}

/// Whether a line says that the layout changed.
pub open spec fn structural(line: Seq<u8>) -> bool {
    ||| begins(line, "%layout-change".spec_bytes())
    ||| begins(line, "%window-add".spec_bytes())
    ||| begins(line, "%window-close".spec_bytes())
    ||| begins(line, "%unlinked-window-close".spec_bytes())
    ||| begins(line, "%window-pane-changed".spec_bytes())
    ||| begins(line, "%session-window-changed".spec_bytes())
    ||| begins(line, "%session-changed".spec_bytes())
    ||| begins(line, "%client-session-changed".spec_bytes())
}

/// What a line says.
pub open spec fn line_event(line: Seq<u8>) -> EventView {
    if begins(line, "%output ".spec_bytes()) {
        let rest = line.skip(8);
        let k = index_of(rest, 0x20u8);
        EventView::Output {
            pane: rest.take(k),
            data: if k < rest.len() {
                rest.skip(k + 1)
            } else {
                Seq::empty()
            },
        }
    } else if structural(line) {
        EventView::Resync
    } else if begins(line, "%exit".spec_bytes()) {
        EventView::Exit
    } else {
        EventView::Ignore
    }
}

fn is_structural(line: &[u8]) -> (r: bool)
    ensures
        r == structural(line@),
{
    starts_with(line, "%layout-change".as_bytes()) || starts_with(line, "%window-add".as_bytes())
        || starts_with(line, "%window-close".as_bytes()) || starts_with(
        line,
        "%unlinked-window-close".as_bytes(),
    ) || starts_with(line, "%window-pane-changed".as_bytes()) || starts_with(
        line,
        "%session-window-changed".as_bytes(),
    ) || starts_with(line, "%session-changed".as_bytes()) || starts_with(
        line,
        "%client-session-changed".as_bytes(),
    )
}

/// What a line says.
pub fn classify(line: &[u8]) -> (r: Event)
    ensures
        r@ == line_event(line@),
{
    proof {
        reveal_strlit("%output ");
        assert(is_ascii("%output "));
        is_ascii_spec_bytes("%output ");
        assert("%output ".spec_bytes().len() == 8);
    }
    if starts_with(line, "%output ".as_bytes()) {
        let rest = slice_subrange(line, 8, line.len());
        assert(rest@ =~= line@.skip(8));
        let k = find_byte(rest, 0x20);
        let pane = slice_subrange(rest, 0, k);
        assert(pane@ =~= rest@.take(k as int));
        let data = if k < rest.len() {
            let d = slice_subrange(rest, k + 1, rest.len());
            assert(d@ =~= rest@.skip(k + 1));
            copy_bytes(d)
        } else {
            let d: Vec<u8> = Vec::new();
            assert(d@ =~= Seq::<u8>::empty());
            d
        };
        return Event::Output { pane: copy_bytes(pane), data };
    }
    if is_structural(line) {
        return Event::Resync;
    }
    if starts_with(line, "%exit".as_bytes()) {
        return Event::Exit;
    }
    Event::Ignore
}

/// Whether a byte is an octal digit.
pub open spec fn octal(b: u8) -> bool {
    0x30 <= b <= 0x37
}

/// Whether `s` begins with a backslash and three octal digits.
pub open spec fn escape_at_start(s: Seq<u8>) -> bool {
    s.len() >= 4 && s[0] == 0x5c && octal(s[1]) && octal(s[2]) && octal(s[3])
}

/// The byte of an escape.
pub open spec fn escaped_byte(s: Seq<u8>) -> u8 {
    (((s[1] - 0x30) * 64 + (s[2] - 0x30) * 8 + (s[3] - 0x30)) % 256) as u8
}

/// Data with its escapes undone.
pub open spec fn unescaped(s: Seq<u8>) -> Seq<u8>
    decreases s.len(),
{
    if s.len() == 0 {
        Seq::empty()
    } else if escape_at_start(s) {
        seq![escaped_byte(s)] + unescaped(s.skip(4))
    } else {
        seq![s[0]] + unescaped(s.drop_first())
    }
}

/// Undo the escapes: a backslash and three octal digits are a byte, every other byte is
/// itself.
pub fn unescape(b: &[u8]) -> (r: Vec<u8>)
    ensures
        r@ == unescaped(b@),
{
    let mut out: Vec<u8> = Vec::new();
    let mut i: usize = 0;
    assert(b@.skip(0) =~= b@);
    assert(out@ + unescaped(b@) =~= unescaped(b@));
    while i < b.len()
        invariant
            i <= b@.len(),
            out@ + unescaped(b@.skip(i as int)) == unescaped(b@),
        decreases b@.len() - i,
    {
        let ghost rest = b@.skip(i as int);
        let ghost before = out@;
        assert(rest[0] == b@[i as int]);
        if b.len() - i >= 4 && b[i] == 0x5c && 0x30 <= b[i + 1] && b[i + 1] <= 0x37 && 0x30 <= b[i + 2]
            && b[i + 2] <= 0x37 && 0x30 <= b[i + 3] && b[i + 3] <= 0x37 {
            let v: u16 = (b[i + 1] - 0x30) as u16 * 64 + (b[i + 2] - 0x30) as u16 * 8 + (b[i + 3]
                - 0x30) as u16;
            assert(rest[1] == b@[i + 1] && rest[2] == b@[i + 2] && rest[3] == b@[i + 3]);
            assert(rest.skip(4) =~= b@.skip(i + 4));
            out.push((v % 256) as u8);
            i += 4;
        } else {
            assert(rest.drop_first() =~= b@.skip(i + 1));
            assert(!escape_at_start(rest)) by {
                if escape_at_start(rest) {
                    assert(rest[1] == b@[i + 1] && rest[2] == b@[i + 2] && rest[3] == b@[i + 3]);
                }
            }
            out.push(b[i]);
            i += 1;
        }
        assert(out@ + unescaped(b@.skip(i as int)) =~= before + unescaped(rest));
    }
    assert(b@.skip(i as int) =~= Seq::<u8>::empty());
    assert(out@ =~= unescaped(b@));
    out
}

/// How a byte is sent: control bytes and the backslash as escapes.
pub open spec fn sent_byte(b: u8) -> Seq<u8> {
    if b < 0x20 || b == 0x5c {
        seq![0x5cu8, (0x30 + b / 64) as u8, (0x30 + b / 8 % 8) as u8, (0x30 + b % 8) as u8]
    } else {
        seq![b]
    }
}

/// How data is sent.
pub open spec fn sent(s: Seq<u8>) -> Seq<u8>
    decreases s.len(),
{
    if s.len() == 0 {
        Seq::empty()
    } else {
        sent_byte(s[0]) + sent(s.drop_first())
    }
}

/// Data that was sent is read as it was.
pub proof fn law_sent_data_reads_back(s: Seq<u8>)
    ensures
        unescaped(sent(s)) == s,
    decreases s.len(),
{
    if s.len() > 0 {
        let rest = sent(s.drop_first());
        let t = sent_byte(s[0]) + rest;
        law_sent_data_reads_back(s.drop_first());
        if s[0] < 0x20 || s[0] == 0x5c {
            assert(t.skip(4) =~= rest);
            assert(escape_at_start(t));
            assert(escaped_byte(t) == s[0]);
        } else {
            assert(t[0] == s[0]);
            assert(t.drop_first() =~= rest);
        }
        assert(seq![s[0]] + s.drop_first() =~= s);
    } else {
        assert(s =~= Seq::<u8>::empty());
    }
}

/// A line without its end.
pub open spec fn without_eol(s: Seq<u8>) -> Seq<u8>
    decreases s.len(),
{
    if s.len() > 0 && (s.last() == 0x0a || s.last() == 0x0d) {
        without_eol(s.drop_last())
    } else {
        s
    }
}

/// Take the end off a line.
pub fn strip_eol(line: &mut Vec<u8>)
    ensures
        final(line)@ == without_eol(old(line)@),
{
    while line.len() > 0 && (line[line.len() - 1] == 0x0a || line[line.len() - 1] == 0x0d)
        invariant
            without_eol(line@) == without_eol(old(line)@),
        decreases line@.len(),
    {
        let ghost was = line@;
        let _end = line.pop();
        assert(line@ =~= was.drop_last());
    }
}

/// What a line asks for: data for a pane that is there, a new capture, the end, or nothing.
#[derive(Debug)]
pub enum Step {
    Feed { pane: usize, bytes: Vec<u8> },
    Resync,
    Exit,
    Idle,
}

/// The model of [`Step`].
pub ghost enum StepView {
    Feed { pane: int, bytes: Seq<u8> },
    Resync,
    Exit,
    Idle,
}

impl View for Step {
    type V = StepView;

    open spec fn view(&self) -> StepView {
        match self {
            Step::Feed { pane, bytes } => StepView::Feed { pane: *pane as int, bytes: bytes@ },
            Step::Resync => StepView::Resync,
            Step::Exit => StepView::Exit,
            Step::Idle => StepView::Idle,
        }
    }
}

/// The place of a pane among others; their number where it is not there.
pub open spec fn pane_place(panes: Seq<String>, id: Seq<u8>) -> int
    decreases panes.len(),
{
    if panes.len() == 0 || encode_utf8(panes[0]@) == id {
        0
    } else {
        1 + pane_place(panes.drop_first(), id)
    }
}

/// What a line asks for, with these panes.
pub open spec fn line_step(panes: Seq<String>, line: Seq<u8>) -> StepView {
    match line_event(line) {
        EventView::Output { pane, data } => {
            let k = pane_place(panes, pane);
            if k < panes.len() {
                StepView::Feed { pane: k, bytes: unescaped(data) }
            } else {
                StepView::Idle
            }
        },
        EventView::Resync => StepView::Resync,
        EventView::Exit => StepView::Exit,
        EventView::Ignore => StepView::Idle,
    }
}

/// What a line asks for, with these panes.
pub fn handle_line(panes: &Vec<String>, line: &[u8]) -> (r: Step)
    ensures
        r@ == line_step(panes@, line@),
{
    match classify(line) {
        Event::Output { pane, data } => {
            let mut k: usize = 0;
            let ghost all = panes@;
            assert(all.skip(0) =~= all);
            while k < panes.len()
                invariant
                    k <= panes@.len(),
                    all == panes@,
                    pane_place(all, pane@) == k + pane_place(all.skip(k as int), pane@),
                    line_event(line@) == (EventView::Output { pane: pane@, data: data@ }),
                decreases panes@.len() - k,
            {
                assert(all.skip(k as int)[0] == all[k as int]);
                assert(all.skip(k as int).drop_first() =~= all.skip(k + 1));
                if same_bytes(panes[k].as_str().as_bytes(), pane.as_slice()) {
                    return Step::Feed { pane: k, bytes: unescape(data.as_slice()) };
                }
                k += 1;
            }
            Step::Idle
        },
        Event::Resync => Step::Resync,
        Event::Exit => Step::Exit,
        Event::Ignore => Step::Idle,
    }
}

} // verus!
