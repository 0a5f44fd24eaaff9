//! Which image protocols a terminal shows, by what it answers.
use crate::images::params_end;
use crate::mirror::Protocols;
use crate::text::{begins, find_byte, index_of, same_text, starts_with};
use vstd::prelude::*;
use vstd::slice::slice_subrange;
use vstd::string::*;

verus! {

/// What a terminal is asked: whether it takes a kitty image, and which features it has. Every
/// terminal answers the second.
pub const QUERY: &'static str = "\x1b_Gi=1,a=q,s=1,v=1,t=d,f=24;AAAA\x1b\\\x1b[c";

/// How a terminal answers that it takes kitty images.
pub const KITTY_YES: &'static str = "\x1b_Gi=1;OK";

/// Whether `pat` stands somewhere in `s`.
pub open spec fn holds(s: Seq<u8>, pat: Seq<u8>) -> bool {
    exists|i: int| 0 <= i < s.len() && begins(#[trigger] s.skip(i), pat)
}

/// Whether a four is among numbers with semicolons between them.
pub open spec fn has_four(p: Seq<u8>) -> bool
    decreases p.len(),
{
    let k = index_of(p, 0x3bu8);
    p.take(k) == seq![0x34u8] || (0 <= k < p.len() && has_four(p.skip(k + 1)))
}

/// Whether a list of features that names sixel begins `s`.
pub open spec fn features_with_sixel(s: Seq<u8>) -> bool {
    let p = s.skip(3);
    let j = params_end(p, 0);
    begins(s, "\x1b[?".spec_bytes()) && 0 <= j < p.len() && p[j] == 0x63 && has_four(p.take(j))
}

/// Whether a list of features that names sixel stands somewhere in an answer.
pub open spec fn names_sixel(s: Seq<u8>) -> bool {
    exists|i: int| 0 <= i < s.len() && features_with_sixel(#[trigger] s.skip(i))
}

/// Whether a terminal program shows iTerm2 images, which no query tells.
pub open spec fn shows_iterm(program: Seq<char>) -> bool {
    program == "iTerm.app"@ || program == "WezTerm"@
}

/// What a terminal shows, by its answer and its name.
pub open spec fn shown_protocols(answer: Seq<u8>, program: Seq<char>) -> Protocols {
    Protocols {
        kitty: holds(answer, KITTY_YES.spec_bytes()),
        iterm: shows_iterm(program),
        sixel: names_sixel(answer),
    }
}

fn find_answer(s: &[u8], pat: &[u8]) -> (r: bool)
    ensures
        r == holds(s@, pat@),
{
    let mut i: usize = 0;
    while i < s.len()
        invariant
            i <= s@.len(),
            forall|j: int| 0 <= j < i ==> !begins(#[trigger] s@.skip(j), pat@),
        decreases s@.len() - i,
    {
        let t = slice_subrange(s, i, s.len());
        assert(t@ =~= s@.skip(i as int));
        if starts_with(t, pat) {
            return true;
        }
        i += 1;
    }
    false
}

fn find_four(p: &[u8]) -> (r: bool)
    ensures
        r == has_four(p@),
    decreases p@.len(),
{
    let k = find_byte(p, 0x3b);
    if k == 1 && p[0] == 0x34 {
        assert(p@.take(k as int) =~= seq![0x34u8]);
        return true;
    }
    assert(p@.take(k as int) != seq![0x34u8]) by {
        if p@.take(k as int) == seq![0x34u8] {
            assert(p@.take(k as int).len() == 1);
            assert(p@.take(k as int)[0] == p@[0]);
        }
    }
    if k < p.len() {
        let t = slice_subrange(p, k + 1, p.len());
        assert(t@ =~= p@.skip(k + 1));
        find_four(t)
    } else {
        false
    }
}

fn list_with_sixel(s: &[u8]) -> (r: bool)
    ensures
        r == features_with_sixel(s@),
{
    if !starts_with(s, "\x1b[?".as_bytes()) {
        return false;
    }
    proof {
        reveal_strlit("\x1b[?");
        assert(is_ascii("\x1b[?"));
        is_ascii_spec_bytes("\x1b[?");
        assert("\x1b[?".spec_bytes().len() == 3);
    }
    let p = slice_subrange(s, 3, s.len());
    assert(p@ =~= s@.skip(3));
    let mut j: usize = 0;
    while j < p.len() && ((0x30 <= p[j] && p[j] <= 0x39) || p[j] == 0x3b)
        invariant
            j <= p@.len(),
            params_end(p@, 0) == params_end(p@, j as int),
        decreases p@.len() - j,
    {
        j += 1;
    }
    if j >= p.len() || p[j] != 0x63 {
        return false;
    }
    let q = slice_subrange(p, 0, j);
    assert(q@ =~= p@.take(j as int));
    find_four(q)
}

fn find_sixel(s: &[u8]) -> (r: bool)
    ensures
        r == names_sixel(s@),
{
    let mut i: usize = 0;
    while i < s.len()
        invariant
            i <= s@.len(),
            forall|j: int| 0 <= j < i ==> !features_with_sixel(#[trigger] s@.skip(j)),
        decreases s@.len() - i,
    {
        let t = slice_subrange(s, i, s.len());
        assert(t@ =~= s@.skip(i as int));
        if list_with_sixel(t) {
            return true;
        }
        i += 1;
    }
    false
}

/// What a terminal shows, by what it answered to [`QUERY`] and by the name of its program.
pub fn protocols(answer: &[u8], program: &str) -> (r: Protocols)
    ensures
        r == shown_protocols(answer@, program@),
{
    Protocols {
        kitty: find_answer(answer, KITTY_YES.as_bytes()),
        iterm: same_text(program, "iTerm.app") || same_text(program, "WezTerm"),
        sixel: find_sixel(answer),
    }
}

/// Whether the answer is complete: the list of features, which comes last, has its end.
pub fn answered(answer: &[u8]) -> (r: bool)
    ensures
        r == (answer@.len() > 0 && answer@.last() == 0x63),
{
    answer.len() > 0 && answer[answer.len() - 1] == 0x63
}

} // verus!
