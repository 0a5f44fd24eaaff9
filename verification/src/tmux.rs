//! What `tmux` says of a window and its panes.
use crate::registry::{debug_quoted, debug_text};
use crate::text::{
    chars_of, find_char, index_of, is_white_space, parse_unsigned, same_text, split_once, string_of, trim,
    trimmed, unsigned, white_space,
};
use vstd::prelude::*;
use vstd::slice::slice_subrange;
use vstd::string::*;

verus! {

/// Where a pane is.
#[derive(Debug)]
pub struct PaneGeom {
    pub id: String,
    pub left: u16,
    pub top: u16,
    pub width: u16,
    pub height: u16,
    pub active: bool,
}

/// The model of [`PaneGeom`], with the cursor's column and row.
pub ghost struct PaneView {
    pub id: Seq<char>,
    pub left: u16,
    pub top: u16,
    pub width: u16,
    pub height: u16,
    pub active: bool,
    pub cursor: (u16, u16),
}

/// A pane as it was captured.
pub struct RawPane {
    pub geom: PaneGeom,
    pub capture: String,
    /// The cursor's column and row.
    pub cursor: (u16, u16),
}

/// A window as it was captured.
pub struct RawWindow {
    pub width: u16,
    pub height: u16,
    pub panes: Vec<RawPane>,
}

/// A number in sixteen bits.
pub open spec fn number(s: Seq<char>) -> Option<u16> {
    match unsigned(s, 65535) {
        Some(v) => Some(v as u16),
        None => None,
    }
}

fn read_number(s: &[char]) -> (r: Option<u16>)
    ensures
        r == number(s@),
{
    match parse_unsigned(s, 65535) {
        Some(v) => Some(v as u16),
        None => None,
    }
}

/// A size as `WxH`.
pub open spec fn size_of(s: Seq<char>) -> Option<(u16, u16)> {
    match split_once(s, 'x') {
        Some((w, h)) => match (number(trim(w)), number(trim(h))) {
            (Some(w), Some(h)) => Some((w, h)),
            _ => None,
        },
        None => None,
    }
}

/// Read a size.
pub fn parse_size(s: &str) -> (r: Option<(u16, u16)>)
    ensures
        r == size_of(s@),
{
    let cs = chars_of(s);
    let k = find_char(cs.as_slice(), 'x');
    if k >= cs.len() {
        return None;
    }
    let a = slice_subrange(cs.as_slice(), 0, k);
    let b = slice_subrange(cs.as_slice(), k + 1, cs.len());
    assert(a@ =~= cs@.take(k as int));
    assert(b@ =~= cs@.skip(k + 1));
    match (read_number(trimmed(a)), read_number(trimmed(b))) {
        (Some(w), Some(h)) => Some((w, h)),
        _ => None,
    }
}

/// The place of the first white space.
pub open spec fn word_end(s: Seq<char>) -> int
    decreases s.len(),
{
    if s.len() == 0 || white_space(s[0]) {
        0
    } else {
        1 + word_end(s.drop_first())
    }
}

/// The words of a text.
pub open spec fn words(s: Seq<char>) -> Seq<Seq<char>>
    decreases s.len(),
{
    let k = word_end(s);
    if s.len() == 0 {
        Seq::empty()
    } else if 0 < k <= s.len() {
        seq![s.take(k)] + words(s.skip(k))
    } else {
        words(s.drop_first())
    }
}

/// The models of words.
pub open spec fn word_views(s: Seq<Vec<char>>) -> Seq<Seq<char>> {
    Seq::new(s.len(), |i: int| s[i]@)
}

proof fn lemma_word_end(s: Seq<char>, k: int)
    requires
        0 <= k <= s.len(),
        forall|i: int| 0 <= i < k ==> !white_space(#[trigger] s[i]),
        k < s.len() ==> white_space(s[k]),
    ensures
        word_end(s) == k,
    decreases k,
{
    if k > 0 {
        let t = s.drop_first();
        assert(!white_space(s[0]));
        assert forall|i: int| 0 <= i < k - 1 implies !white_space(#[trigger] t[i]) by {
            assert(t[i] == s[i + 1]);
        }
        lemma_word_end(t, k - 1);
    }
}

/// The words of a text.
pub fn split_words(s: &[char]) -> (r: Vec<Vec<char>>)
    ensures
        word_views(r@) == words(s@),
{
    let mut out: Vec<Vec<char>> = Vec::new();
    let mut i: usize = 0;
    assert(s@.skip(0) =~= s@);
    assert(word_views(out@) + words(s@) =~= words(s@));
    while i < s.len()
        invariant
            i <= s@.len(),
            word_views(out@) + words(s@.skip(i as int)) == words(s@),
        decreases s@.len() - i,
    {
        let ghost rest = s@.skip(i as int);
        let ghost before = word_views(out@);
        assert(rest[0] == s@[i as int]);
        if is_white_space(s[i]) {
            assert(rest.drop_first() =~= s@.skip(i + 1));
            i += 1;
        } else {
            let mut e: usize = i + 1;
            while e < s.len() && !is_white_space(s[e])
                invariant
                    i < e <= s@.len(),
                    rest == s@.skip(i as int),
                    forall|j: int| 0 <= j < e - i ==> !white_space(#[trigger] rest[j]),
                decreases s@.len() - e,
            {
                assert(rest[e - i] == s@[e as int]);
                e += 1;
            }
            proof {
                if e < s@.len() {
                    assert(rest[e - i] == s@[e as int]);
                }
                lemma_word_end(rest, e - i);
            }
            let w = slice_subrange(s, i, e);
            assert(w@ =~= rest.take(e - i));
            let v = vstd::slice::slice_to_vec(w);
            out.push(v);
            assert(rest.skip(e - i) =~= s@.skip(e as int));
            assert(word_views(out@) =~= before.push(v@));
            assert(word_views(out@) + words(s@.skip(e as int)) =~= before + words(rest));
            i = e;
        }
    }
    assert(s@.skip(i as int) =~= Seq::<char>::empty());
    assert(word_views(out@) =~= words(s@));
    out
}

/// A pane as it is listed: its id, place, size, whether it is the active one, and the cursor.
pub open spec fn pane_of(line: Seq<char>) -> Option<PaneView> {
    let w = words(line);
    if w.len() < 8 {
        None
    } else {
        match (
            number(w[1]),
            number(w[2]),
            number(w[3]),
            number(w[4]),
            number(w[6]),
            number(w[7]),
        ) {
            (Some(left), Some(top), Some(width), Some(height), Some(x), Some(y)) => Some(
                PaneView {
                    id: w[0],
                    left,
                    top,
                    width,
                    height,
                    active: w[5] == "1"@,
                    cursor: (x, y),
                },
            ),
            _ => None,
        }
    }
}

/// The model of a pane that was read.
pub open spec fn pane_view(g: PaneGeom, cursor: (u16, u16)) -> PaneView {
    PaneView {
        id: g.id@,
        left: g.left,
        top: g.top,
        width: g.width,
        height: g.height,
        active: g.active,
        cursor,
    }
}

/// Read a listed pane.
pub fn parse_pane_line(line: &str) -> (r: Option<(PaneGeom, (u16, u16))>)
    ensures
        r is Some <==> pane_of(line@) is Some,
        r matches Some((g, c)) ==> pane_of(line@) == Some(pane_view(g, c)),
{
    let cs = chars_of(line);
    let w = split_words(cs.as_slice());
    let ghost all = words(line@);
    assert(word_views(w@) == all);
    if w.len() < 8 {
        return None;
    }
    assert(all[0] == w@[0]@ && all[1] == w@[1]@ && all[2] == w@[2]@ && all[3] == w@[3]@);
    assert(all[4] == w@[4]@ && all[5] == w@[5]@ && all[6] == w@[6]@ && all[7] == w@[7]@);
    let id = string_of(w[0].as_slice());
    let flag = string_of(w[5].as_slice());
    let active = same_text(flag.as_str(), "1");
    match (
        read_number(w[1].as_slice()),
        read_number(w[2].as_slice()),
        read_number(w[3].as_slice()),
        read_number(w[4].as_slice()),
        read_number(w[6].as_slice()),
        read_number(w[7].as_slice()),
    ) {
        (Some(left), Some(top), Some(width), Some(height), Some(x), Some(y)) => Some(
            (PaneGeom { id, left, top, width, height, active }, (x, y)),
        ),
        _ => None,
    }
}

/// A line without the carriage return at its end.
pub open spec fn without_cr(s: Seq<char>) -> Seq<char> {
    if s.len() > 0 && s.last() == '\r' {
        s.drop_last()
    } else {
        s
    }
}

/// The lines of a text.
pub open spec fn lines_of(s: Seq<char>) -> Seq<Seq<char>>
    decreases s.len(),
{
    let k = index_of(s, '\n');
    if s.len() == 0 {
        Seq::empty()
    } else if 0 <= k < s.len() {
        seq![without_cr(s.take(k))] + lines_of(s.skip(k + 1))
    } else {
        seq![s]
    }
}

/// The panes in lines, without the blank ones; the first line that cannot be read, where there
/// is one.
pub open spec fn panes_in(lines: Seq<Seq<char>>) -> Result<Seq<PaneView>, Seq<char>>
    decreases lines.len(),
{
    if lines.len() == 0 {
        Ok(Seq::empty())
    } else {
        match panes_in(lines.drop_last()) {
            Err(l) => Err(l),
            Ok(panes) => if trim(lines.last()).len() == 0 {
                Ok(panes)
            } else {
                match pane_of(lines.last()) {
                    Some(p) => Ok(panes.push(p)),
                    None => Err(lines.last()),
                }
            },
        }
    }
}

/// The models of panes that were read.
pub open spec fn pane_views(s: Seq<(PaneGeom, (u16, u16))>) -> Seq<PaneView> {
    Seq::new(s.len(), |i: int| pane_view(s[i].0, s[i].1))
}

fn copy_chars(s: &[char]) -> (r: Vec<char>)
    ensures
        r@ == s@,
{
    let mut out: Vec<char> = Vec::new();
    let mut i: usize = 0;
    while i < s.len()
        invariant
            i <= s@.len(),
            out@ == s@.take(i as int),
        decreases s@.len() - i,
    {
        out.push(s[i]);
        i += 1;
        assert(out@ =~= s@.take(i as int));
    }
    assert(s@.take(i as int) =~= s@);
    out
}

fn split_lines(s: &[char]) -> (r: Vec<Vec<char>>)
    ensures
        word_views(r@) == lines_of(s@),
{
    let mut out: Vec<Vec<char>> = Vec::new();
    let mut i: usize = 0;
    assert(s@.skip(0) =~= s@);
    assert(word_views(out@) + lines_of(s@) =~= lines_of(s@));
    while i < s.len()
        invariant
            i <= s@.len(),
            word_views(out@) + lines_of(s@.skip(i as int)) == lines_of(s@),
        decreases s@.len() - i,
    {
        let ghost rest = s@.skip(i as int);
        let tail = slice_subrange(s, i, s.len());
        assert(tail@ =~= rest);
        let k: usize = find_char(tail, '\n');
        let ghost was = word_views(out@);
        if k < tail.len() {
            let e: usize = if k > 0 && tail[k - 1] == '\r' {
                k - 1
            } else {
                k
            };
            let line = copy_chars(slice_subrange(tail, 0, e));
            assert(line@ =~= without_cr(rest.take(k as int)));
            out.push(line);
            assert(word_views(out@) =~= was.push(line@));
            assert(rest.skip(k + 1) =~= s@.skip(i + k + 1));
            assert(word_views(out@) + lines_of(s@.skip(i + k + 1)) =~= was + lines_of(rest));
            i = i + k + 1;
        } else {
            let line = copy_chars(tail);
            out.push(line);
            assert(word_views(out@) =~= was.push(line@));
            assert(line@ =~= rest);
            i = s.len();
            assert(s@.skip(i as int) =~= Seq::<char>::empty());
            assert(word_views(out@) + lines_of(s@.skip(i as int)) =~= was + lines_of(rest));
        }
    }
    assert(s@.skip(i as int) =~= Seq::<char>::empty());
    assert(word_views(out@) + lines_of(s@.skip(i as int)) =~= word_views(out@));
    out
}

proof fn lemma_panes_bad(lines: Seq<Seq<char>>, k: int)
    requires
        0 <= k <= lines.len(),
        panes_in(lines.take(k)) is Err,
    ensures
        panes_in(lines) == panes_in(lines.take(k)),
    decreases lines.len() - k,
{
    if k < lines.len() {
        assert(lines.take(k + 1).drop_last() =~= lines.take(k));
        lemma_panes_bad(lines, k + 1);
    } else {
        assert(lines.take(k) =~= lines);
    }
}

/// Read the list of panes. The error is the first line that cannot be read.
pub fn parse_listing(listing: &str) -> (r: Result<Vec<(PaneGeom, (u16, u16))>, String>)
    ensures
        (match r {
            Ok(v) => Ok(pane_views(v@)),
            Err(l) => Err(l@),
        }) == panes_in(lines_of(listing@)),
{
    let cs = chars_of(listing);
    let lines = split_lines(cs.as_slice());
    let ghost all = word_views(lines@);
    let mut out: Vec<(PaneGeom, (u16, u16))> = Vec::new();
    let mut i: usize = 0;
    assert(all.take(0) =~= Seq::<Seq<char>>::empty());
    assert(pane_views(out@) =~= Seq::<PaneView>::empty());
    while i < lines.len()
        invariant
            i <= lines@.len(),
            all == word_views(lines@),
            all == lines_of(listing@),
            panes_in(all.take(i as int)) == Result::<Seq<PaneView>, Seq<char>>::Ok(
                pane_views(out@),
            ),
        decreases lines@.len() - i,
    {
        let line = lines[i].as_slice();
        assert(all.take(i + 1).drop_last() =~= all.take(i as int));
        assert(all.take(i + 1).last() == line@);
        if trimmed(line).len() > 0 {
            let text = string_of(line);
            match parse_pane_line(text.as_str()) {
                Some(p) => {
                    let ghost was = pane_views(out@);
                    out.push(p);
                    assert(pane_views(out@) =~= was.push(pane_view(p.0, p.1)));
                },
                None => {
                    proof {
                        lemma_panes_bad(all, i + 1);
                    }
                    return Err(text);
                },
            }
        }
        i += 1;
    }
    assert(all.take(i as int) =~= all);
    Ok(out)
}

/// The model of [`RawWindow`]: its size, and its panes, each with what it shows.
pub ghost struct WindowView {
    pub width: u16,
    pub height: u16,
    pub panes: Seq<(PaneView, Seq<char>)>,
}

impl View for RawWindow {
    type V = WindowView;

    open spec fn view(&self) -> WindowView {
        WindowView {
            width: self.width,
            height: self.height,
            panes: Seq::new(
                self.panes@.len(),
                |i: int|
                    (
                        pane_view(self.panes@[i].geom, self.panes@[i].cursor),
                        self.panes@[i].capture@,
                    ),
            ),
        }
    }
}

/// A window from its size, the list of its panes, and what each of them shows; `None` where the
/// size or the list cannot be read, there is no pane, or not one text for each.
pub open spec fn window_from(size: Seq<char>, listing: Seq<char>, captures: Seq<Seq<char>>) -> Option<
    WindowView,
> {
    match (size_of(trim(size)), panes_in(lines_of(listing))) {
        (Some((width, height)), Ok(panes)) => if panes.len() > 0 && panes.len() == captures.len() {
            Some(
                WindowView {
                    width,
                    height,
                    panes: Seq::new(panes.len(), |i: int| (panes[i], captures[i])),
                },
            )
        } else {
            None
        },
        _ => None,
    }
}

/// What is wrong, where there is no window: the size, a line of the list, or that there is no
/// pane, in this order; else that the texts are not one for each pane.
pub open spec fn window_problem(size: Seq<char>, listing: Seq<char>) -> Seq<char> {
    if size_of(trim(size)) is None {
        "unexpected window size from tmux: "@ + debug_text(trim(size))
    } else {
        match panes_in(lines_of(listing)) {
            Err(l) => "unexpected list-panes line: "@ + debug_text(l),
            Ok(panes) => if panes.len() == 0 {
                "no panes found"@
            } else {
                "not one capture for each pane"@
            },
        }
    }
}

/// The models of texts.
pub open spec fn text_seqs(s: Seq<String>) -> Seq<Seq<char>> {
    Seq::new(s.len(), |i: int| s[i]@)
}

fn problem(head: &str, what: &str) -> (r: String)
    ensures
        r@ == head@ + debug_text(what@),
{
    let mut m = String::from_str(head);
    m.append(debug_quoted(what).as_str());
    m
}

/// Put a window together.
pub fn window_of(size: &str, listing: &str, captures: Vec<String>) -> (r: Result<RawWindow, String>)
    ensures
        r is Ok <==> window_from(size@, listing@, text_seqs(captures@)) is Some,
        r matches Ok(w) ==> window_from(size@, listing@, text_seqs(captures@)) == Some(w@),
        r matches Err(m) ==> m@ == window_problem(size@, listing@),
{
    let ghost shown = text_seqs(captures@);
    let cs = chars_of(size);
    let text = string_of(trimmed(cs.as_slice()));
    let (width, height) = match parse_size(text.as_str()) {
        Some(s) => s,
        None => {
            return Err(problem("unexpected window size from tmux: ", text.as_str()));
        },
    };
    let listed = match parse_listing(listing) {
        Ok(l) => l,
        Err(l) => {
            return Err(problem("unexpected list-panes line: ", l.as_str()));
        },
    };
    let ghost all = pane_views(listed@);
    assert(panes_in(lines_of(listing@)) == Result::<Seq<PaneView>, Seq<char>>::Ok(all));
    let n: usize = listed.len();
    if n == 0 {
        return Err(String::from_str("no panes found"));
    }
    if n != captures.len() {
        return Err(String::from_str("not one capture for each pane"));
    }
    let mut panes: Vec<RawPane> = Vec::new();
    let mut i: usize = 0;
    while i < n
        invariant
            i <= n,
            n == listed@.len(),
            n == captures@.len(),
            all == pane_views(listed@),
            shown == text_seqs(captures@),
            panes@.len() == i,
            forall|j: int|
                0 <= j < i ==> pane_view((#[trigger] panes@[j]).geom, panes@[j].cursor) == all[j]
                    && panes@[j].capture@ == shown[j],
        decreases n - i,
    {
        let g = &listed[i].0;
        let geom = PaneGeom {
            id: g.id.clone(),
            left: g.left,
            top: g.top,
            width: g.width,
            height: g.height,
            active: g.active,
        };
        let p = RawPane { geom, capture: captures[i].clone(), cursor: listed[i].1 };
        assert(pane_view(p.geom, p.cursor) == all[i as int]);
        panes.push(p);
        i += 1;
    }
    let w = RawWindow { width, height, panes };
    assert(w@.panes =~= Seq::new(all.len(), |k: int| (all[k], shown[k])));
    Ok(w)
}

} // verus!
