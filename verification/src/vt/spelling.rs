//! How text spells what a terminal is asked to do.
use crate::text::{dec, digit_char, is_digit};
use crate::vt::parser::EventView;
use crate::vt::sgr_laws::{param_text, params_text};
use vstd::prelude::*;

verus! {

/// Whether a character is part of the parameters of a control sequence.
pub open spec fn in_params(c: char) -> bool {
    is_digit(c) || c == ';' || c == ':'
}

/// How many characters of parameters a text starts with.
pub open spec fn params_ahead(s: Seq<char>) -> int
    decreases s.len(),
{
    if s.len() > 0 && in_params(s[0]) {
        1 + params_ahead(s.skip(1))
    } else {
        0
    }
}

/// The parameters that a text spells: a semicolon starts the next one, a colon the next part of
/// one, and where digits are missing it is zero.
pub open spec fn params_of(s: Seq<char>) -> Seq<Seq<u16>>
    decreases s.len(),
{
    if s.len() == 0 {
        seq![seq![0u16]]
    } else {
        let p = params_of(s.drop_last());
        let e = p.last();
        if s.last() == ';' {
            p.push(seq![0u16])
        } else if s.last() == ':' {
            p.drop_last().push(e.push(0u16))
        } else {
            p.drop_last().push(
                e.drop_last().push((10 * e.last() + (s.last() as int - '0' as int)) as u16),
            )
        }
    }
}

/// A control sequence.
pub open spec fn sequence(private: bool, p: Seq<Seq<u16>>, action: char) -> EventView {
    EventView::Csi {
        params: p,
        intermediates: if private {
            seq![0x3fu8]
        } else {
            Seq::empty()
        },
        action,
    }
}

/// One event.
pub open spec fn once(e: EventView) -> Seq<EventView> {
    seq![e]
}

/// A character that is printed.
pub open spec fn print_of(c: char) -> Seq<EventView> {
    once(EventView::Print(c))
}

/// What a text spells: ESC and a bracket start a control sequence, with a question mark a private
/// one, then parameters and the character that names it; ESC and another character are a sequence
/// of their own; all other characters are printed.
pub open spec fn spelled(s: Seq<char>) -> Seq<EventView>
    decreases s.len(),
{
    if s.len() == 0 {
        Seq::empty()
    } else if s[0] == '\x1b' && s.len() >= 2 && s[1] == '[' {
        let private = s.len() >= 3 && s[2] == '?';
        let body = s.skip(
            if private {
                3
            } else {
                2
            },
        );
        let k = params_ahead(body);
        if 0 <= k < body.len() {
            seq![sequence(private, params_of(body.take(k)), body[k])] + spelled(body.skip(k + 1))
        } else {
            Seq::empty()
        }
    } else if s[0] == '\x1b' && s.len() >= 2 {
        once(EventView::Esc { intermediates: Seq::empty(), byte: s[1] as u8 }) + spelled(s.skip(2))
    } else {
        print_of(s[0]) + spelled(s.skip(1))
    }
}

/// Whether a text spells these events, whatever follows.
#[verifier::opaque]
pub open spec fn spells(t: Seq<char>, e: Seq<EventView>) -> bool {
    forall|rest: Seq<char>| #[trigger] spelled(t + rest) == e + spelled(rest)
}

/// Nothing spells nothing.
pub proof fn lemma_spells_nothing()
    ensures
        spells(Seq::empty(), Seq::empty()),
{
    reveal(spells);
    assert forall|rest: Seq<char>| #[trigger] spelled(Seq::empty() + rest) == Seq::<EventView>::empty()
        + spelled(rest) by {
        assert(Seq::<char>::empty() + rest =~= rest);
        assert(Seq::<EventView>::empty() + spelled(rest) =~= spelled(rest));
    }
}

/// Texts behind each other spell what they spell.
pub proof fn lemma_spells_join(t: Seq<char>, e: Seq<EventView>, u: Seq<char>, f: Seq<EventView>)
    requires
        spells(t, e),
        spells(u, f),
    ensures
        spells(t + u, e + f),
{
    reveal(spells);
    assert forall|rest: Seq<char>| #[trigger] spelled(t + u + rest) == e + f + spelled(rest) by {
        assert(t + u + rest =~= t + (u + rest));
        assert(spelled(t + (u + rest)) == e + spelled(u + rest));
        assert(e + (f + spelled(rest)) =~= e + f + spelled(rest));
    }
}

/// What a text spells is what the whole of it spells.
pub proof fn lemma_spells_whole(t: Seq<char>, e: Seq<EventView>)
    requires
        spells(t, e),
    ensures
        spelled(t) == e,
{
    reveal(spells);
    assert(t + Seq::<char>::empty() =~= t);
    assert(spelled(t + Seq::<char>::empty()) == e + spelled(Seq::empty()));
    assert(e + spelled(Seq::empty()) =~= e);
}

proof fn lemma_spells_first(t: Seq<char>, f: Seq<EventView>)
    requires
        t.len() > 0,
        t[0] != '\x1b',
        spells(t.skip(1), f),
    ensures
        spells(t, print_of(t[0]) + f),
{
    reveal(spells);
    let e = print_of(t[0]);
    assert forall|rest: Seq<char>| #[trigger] spelled(t + rest) == e + f + spelled(rest) by {
        let s = t + rest;
        assert(s[0] == t[0]);
        assert(s.skip(1) =~= t.skip(1) + rest);
        assert(spelled(t.skip(1) + rest) == f + spelled(rest));
        assert(spelled(s) == print_of(s[0]) + spelled(s.skip(1)));
        assert(e + (f + spelled(rest)) =~= e + f + spelled(rest));
    }
}

/// A character that is not ESC is printed.
pub proof fn lemma_spells_char(c: char)
    requires
        c != '\x1b',
    ensures
        spells(seq![c], seq![EventView::Print(c)]),
{
    let t = seq![c];
    lemma_spells_nothing();
    assert(t.skip(1) =~= Seq::empty());
    lemma_spells_first(t, Seq::empty());
    assert(t[0] == c);
    assert(print_of(c) + Seq::<EventView>::empty() =~= seq![EventView::Print(c)]);
}

proof fn lemma_params_ahead(s: Seq<char>, rest: Seq<char>)
    requires
        forall|i: int| 0 <= i < s.len() ==> in_params(#[trigger] s[i]),
        rest.len() > 0,
        !in_params(rest[0]),
    ensures
        params_ahead(s + rest) == s.len(),
    decreases s.len(),
{
    if s.len() > 0 {
        assert forall|i: int| 0 <= i < s.skip(1).len() implies in_params(#[trigger] s.skip(1)[i]) by {
            assert(in_params(s[i + 1]));
        }
        lemma_params_ahead(s.skip(1), rest);
        assert((s + rest).skip(1) =~= s.skip(1) + rest);
        assert((s + rest)[0] == s[0]);
    } else {
        assert(s + rest =~= rest);
    }
}

proof fn lemma_number_at_end(t: Seq<char>, q: Seq<Seq<u16>>, e: Seq<u16>, n: u16)
    requires
        params_of(t) == q.push(e.push(0)),
    ensures
        params_of(t + dec(n as nat)) == q.push(e.push(n)),
        forall|i: int| 0 <= i < dec(n as nat).len() ==> in_params(#[trigger] dec(n as nat)[i]),
    decreases n,
{
    let d = dec(n as nat);
    if n < 10 {
        let s = t + d;
        assert(s.drop_last() =~= t);
        assert(s.last() == digit_char(n as nat));
        assert(q.push(e.push(0)).last() == e.push(0));
        assert(q.push(e.push(0)).drop_last() =~= q);
        assert(e.push(0).drop_last() =~= e);
    } else {
        let m: u16 = (n / 10) as u16;
        lemma_number_at_end(t, q, e, m);
        let s = t + d;
        assert(d.drop_last() =~= dec(m as nat));
        assert(s.drop_last() =~= t + dec(m as nat));
        assert(s.last() == digit_char((n % 10) as nat));
        let p = q.push(e.push(m));
        assert(p.last() == e.push(m));
        assert(p.drop_last() =~= q);
        assert(e.push(m).drop_last() =~= e);
        assert forall|i: int| 0 <= i < d.len() implies in_params(#[trigger] d[i]) by {
            if i < d.len() - 1 {
                assert(d[i] == dec(m as nat)[i]);
            }
        }
    }
}

proof fn lemma_param_at_end(t: Seq<char>, q: Seq<Seq<u16>>, e: Seq<u16>)
    requires
        params_of(t) == q.push(seq![0u16]),
        e.len() > 0,
    ensures
        params_of(t + param_text(e)) == q.push(e),
        forall|i: int| 0 <= i < param_text(e).len() ==> in_params(#[trigger] param_text(e)[i]),
    decreases e.len(),
{
    if e.len() == 1 {
        assert(seq![0u16] =~= Seq::empty().push(0u16));
        lemma_number_at_end(t, q, Seq::empty(), e[0]);
        assert(Seq::empty().push(e[0]) =~= e);
    } else {
        reveal_strlit(":");
        let f = e.drop_last();
        lemma_param_at_end(t, q, f);
        let u = t + param_text(f) + ":"@;
        assert(u.drop_last() =~= t + param_text(f));
        assert(q.push(f).last() == f);
        assert(q.push(f).drop_last() =~= q);
        assert(params_of(u) == q.push(f.push(0)));
        lemma_number_at_end(u, q, f, e.last());
        assert(t + param_text(e) =~= u + dec(e.last() as nat));
        assert(f.push(e.last()) =~= e);
        let x = param_text(e);
        assert forall|i: int| 0 <= i < x.len() implies in_params(#[trigger] x[i]) by {
            let k = param_text(f).len() as int;
            if i < k {
                assert(x[i] == param_text(f)[i]);
            } else if i > k {
                assert(x[i] == dec(e.last() as nat)[i - k - 1]);
            }
        }
    }
}

/// Parameters that are written are spelled.
pub proof fn law_written_parameters_are_spelled(p: Seq<Seq<u16>>)
    requires
        p.len() > 0,
        forall|i: int| 0 <= i < p.len() ==> (#[trigger] p[i]).len() > 0,
    ensures
        params_of(params_text(p)) == p,
        forall|i: int| 0 <= i < params_text(p).len() ==> in_params(#[trigger] params_text(p)[i]),
    decreases p.len(),
{
    reveal_with_fuel(params_text, 1);
    let e = p.last();
    assert(p[p.len() - 1].len() > 0);
    if p.len() == 1 {
        assert(seq![seq![0u16]] =~= Seq::empty().push(seq![0u16]));
        lemma_param_at_end(Seq::empty(), Seq::empty(), e);
        assert(Seq::empty() + param_text(e) =~= param_text(e));
        assert(Seq::empty().push(e) =~= p);
    } else {
        reveal_strlit(";");
        let q = p.drop_last();
        assert forall|i: int| 0 <= i < q.len() implies (#[trigger] q[i]).len() > 0 by {
            assert(p[i].len() > 0);
        }
        law_written_parameters_are_spelled(q);
        let u = params_text(q) + ";"@;
        assert(u.drop_last() =~= params_text(q));
        assert(params_of(u) == q.push(seq![0u16]));
        lemma_param_at_end(u, q, e);
        assert(q.push(e) =~= p);
        let x = params_text(p);
        assert(x == u + param_text(e));
        assert forall|i: int| 0 <= i < x.len() implies in_params(#[trigger] x[i]) by {
            if i < params_text(q).len() {
                assert(x[i] == params_text(q)[i]);
            } else if i > params_text(q).len() {
                assert(x[i] == param_text(e)[i - u.len()]);
            }
        }
    }
}

/// ESC and a character other than a bracket spell a sequence.
pub proof fn lemma_spells_escape(t: Seq<char>, c: char)
    requires
        c != '[',
        t == seq!['\x1b', c],
    ensures
        spells(t, seq![EventView::Esc { intermediates: Seq::empty(), byte: c as u8 }]),
{
    reveal(spells);
    let e = seq![EventView::Esc { intermediates: Seq::empty(), byte: c as u8 }];
    assert forall|rest: Seq<char>| #[trigger] spelled(t + rest) == e + spelled(rest) by {
        let s = t + rest;
        assert(s[0] == '\x1b' && s[1] == c);
        assert(s.skip(2) =~= rest);
    }
}

/// ESC, a bracket, parameters and a name spell one control sequence.
pub proof fn lemma_spells_sequence(t: Seq<char>, private: bool, p: Seq<Seq<u16>>, action: char)
    requires
        p.len() > 0,
        forall|i: int| 0 <= i < p.len() ==> (#[trigger] p[i]).len() > 0,
        !in_params(action),
        action != '?',
        t == (if private {
            seq!['\x1b', '[', '?']
        } else {
            seq!['\x1b', '[']
        }) + params_text(p) + seq![action],
    ensures
        spells(t, seq![sequence(private, p, action)]),
{
    law_written_parameters_are_spelled(p);
    lemma_spells_raw(t, private, params_text(p), action);
}

/// ESC, a bracket, characters of parameters and a name spell one control sequence.
pub proof fn lemma_spells_raw(t: Seq<char>, private: bool, x: Seq<char>, action: char)
    requires
        forall|i: int| 0 <= i < x.len() ==> in_params(#[trigger] x[i]),
        !in_params(action),
        action != '?',
        t == (if private {
            seq!['\x1b', '[', '?']
        } else {
            seq!['\x1b', '[']
        }) + x + seq![action],
    ensures
        spells(t, seq![sequence(private, params_of(x), action)]),
{
    reveal(spells);
    let h: int = if private {
        3
    } else {
        2
    };
    assert forall|rest: Seq<char>| #[trigger] spelled(t + rest) == seq![
        sequence(private, params_of(x), action),
    ] + spelled(rest) by {
        let s = t + rest;
        let body = s.skip(h);
        let after = seq![action] + rest;
        lemma_params_ahead(x, after);
        assert(body =~= x + after);
        assert(s[0] == '\x1b' && s[1] == '[');
        if private {
            assert(s[2] == '?');
        } else if x.len() > 0 {
            assert(s[2] == x[0]);
            assert(in_params(x[0]));
        } else {
            assert(s[2] == action);
        }
        let k = x.len() as int;
        assert(body.take(k) =~= x);
        assert(body[k] == action);
        assert(body.skip(k + 1) =~= rest);
    }
}

} // verus!
