//! Laws of the image stream.
use crate::images::{
    cache_find, cache_trimmed, finished, first_stop, kitty_control, kitty_opened, kitty_refusal,
    kv_get, lemma_first_stop, lemma_first_stop_skips, lemma_parsed_idle, lemma_scan_at,
    marker_bytes, params_end, pass_steps, proper_prefix, stops, string_end, tee_of, tee_step,
    CachedView, Ending, GfxProto, InterceptorState, KittyMedium, Marker, Opening, PayloadView,
    SegmentView, StepView, DCS, ITERM, KITTY, MAX_IMAGE_BYTES, MAX_SEQ_BYTES,
};
use crate::text::begins;
use vstd::prelude::*;
use vstd::utf8::encode_utf8;

verus! {

/// What a step says, with plain bytes taken one by one.
pub ghost enum Atom {
    Byte(u8),
    Other(StepView),
}

/// Plain bytes, one by one.
pub open spec fn byte_atoms(b: Seq<u8>) -> Seq<Atom> {
    Seq::new(b.len(), |i: int| Atom::Byte(b[i]))
}

/// What one step says.
pub open spec fn step_atoms(s: StepView) -> Seq<Atom> {
    match s {
        StepView::Passthrough(b) => byte_atoms(b),
        _ => seq![Atom::Other(s)],
    }
}

/// What steps say, whatever the reads were cut into.
pub open spec fn atoms(s: Seq<StepView>) -> Seq<Atom>
    decreases s.len(),
{
    if s.len() == 0 {
        Seq::empty()
    } else {
        step_atoms(s[0]) + atoms(s.drop_first())
    }
}

proof fn lemma_atoms_concat(a: Seq<StepView>, b: Seq<StepView>)
    ensures
        atoms(a + b) == atoms(a) + atoms(b),
    decreases a.len(),
{
    if a.len() == 0 {
        assert(a + b =~= b);
        assert(atoms(a) + atoms(b) =~= atoms(b));
    } else {
        assert((a + b).drop_first() =~= a.drop_first() + b);
        lemma_atoms_concat(a.drop_first(), b);
        assert(atoms(a + b) =~= atoms(a) + atoms(b));
    }
}

proof fn lemma_atoms_pass(b: Seq<u8>)
    ensures
        atoms(pass_steps(b)) == byte_atoms(b),
{
    if b.len() > 0 {
        let s = pass_steps(b);
        assert(s.drop_first() =~= Seq::<StepView>::empty());
        assert(atoms(s.drop_first()) =~= Seq::<Atom>::empty());
        assert(atoms(s) =~= byte_atoms(b));
    } else {
        assert(byte_atoms(b) =~= Seq::<Atom>::empty());
    }
}

proof fn lemma_atoms_one(s: StepView)
    requires
        !(s is Passthrough),
    ensures
        atoms(seq![s]) == seq![Atom::Other(s)],
{
    assert(seq![s].drop_first() =~= Seq::<StepView>::empty());
    assert(atoms(seq![s].drop_first()) =~= Seq::<Atom>::empty());
    assert(atoms(seq![s]) =~= seq![Atom::Other(s)]);
}

/// The steps around one sequence, as atoms.
proof fn lemma_atoms_around(p: Seq<u8>, s: StepView, more: Seq<StepView>)
    requires
        !(s is Passthrough),
    ensures
        atoms(pass_steps(p) + seq![s] + more) == byte_atoms(p) + seq![Atom::Other(s)] + atoms(more),
{
    lemma_atoms_concat(pass_steps(p) + seq![s], more);
    lemma_atoms_concat(pass_steps(p), seq![s]);
    lemma_atoms_pass(p);
    lemma_atoms_one(s);
}

spec fn nothing_at(st: InterceptorState, data: Seq<u8>, j: int) -> bool {
    data[j] != 0x1b || st.opening(data.skip(j)) == Opening::No
}

proof fn lemma_first_opening(st: InterceptorState, data: Seq<u8>, i: int)
    requires
        0 <= i <= data.len(),
    ensures
        i <= st.first_opening(data, i) <= data.len(),
        forall|j: int| i <= j < st.first_opening(data, i) ==> #[trigger] nothing_at(st, data, j),
        st.first_opening(data, i) < data.len() ==> !nothing_at(
            st,
            data,
            st.first_opening(data, i),
        ),
    decreases data.len() - i,
{
    if i < data.len() && nothing_at(st, data, i) {
        lemma_first_opening(st, data, i + 1);
    }
}

proof fn lemma_first_opening_is(st: InterceptorState, data: Seq<u8>, i: int, k: int)
    requires
        0 <= i <= k <= data.len(),
        forall|j: int| i <= j < k ==> #[trigger] nothing_at(st, data, j),
        k < data.len() ==> !nothing_at(st, data, k),
    ensures
        st.first_opening(data, i) == k,
    decreases k - i,
{
    if i < k {
        assert(nothing_at(st, data, i));
        lemma_first_opening_is(st, data, i + 1, k);
    }
}

/// Bytes at which nothing begins only pass.
proof fn lemma_scan_prefix(st: InterceptorState, data: Seq<u8>, i: int)
    requires
        0 <= i <= data.len(),
        forall|j: int| 0 <= j < i ==> #[trigger] nothing_at(st, data, j),
    ensures
        st.scanned(data).0 == st.scanned(data.skip(i)).0,
        atoms(st.scanned(data).1) == byte_atoms(data.take(i)) + atoms(
            st.scanned(data.skip(i)).1,
        ),
{
    let tail = data.skip(i);
    let k = st.first_opening(tail, 0);
    lemma_first_opening(st, tail, 0);
    assert forall|j: int| 0 <= j < i + k implies #[trigger] nothing_at(st, data, j) by {
        if j >= i {
            assert(nothing_at(st, tail, j - i));
            assert(tail.skip(j - i) =~= data.skip(j));
        }
    }
    assert(tail.skip(k) =~= data.skip(i + k));
    if k < tail.len() {
        assert(!nothing_at(st, tail, k));
        assert(!nothing_at(st, data, i + k));
    }
    lemma_first_opening_is(st, data, 0, i + k);
    let pa = data.take(i + k);
    let pb = tail.take(k);
    assert(byte_atoms(pa) =~= byte_atoms(data.take(i)) + byte_atoms(pb));
    lemma_atoms_pass(pa);
    lemma_atoms_pass(pb);
    reveal(InterceptorState::scanned);
    if k >= tail.len() {
        assert(pa =~= data);
        assert(pb =~= tail);
    } else {
        let rest = data.skip(i + k);
        match st.opening(rest) {
            Opening::Start(m) => match string_end(rest, m, 1) {
                Ending::End(e) => {
                    let (s1, seg) = st.parsed(m, rest.take(e));
                    let more = s1.scanned(rest.skip(e)).1;
                    let s = tee_step(rest.take(e), seg);
                    lemma_atoms_around(pa, s, more);
                    lemma_atoms_around(pb, s, more);
                    assert(byte_atoms(pa) + seq![Atom::Other(s)] + atoms(more) =~= byte_atoms(
                        data.take(i),
                    ) + (byte_atoms(pb) + seq![Atom::Other(s)] + atoms(more)));
                },
                Ending::Abort(r) => {
                    let more = st.cancelled(m).scanned(rest.skip(r)).1;
                    let s = StepView::TerminalOnly(rest.take(r));
                    lemma_atoms_around(pa, s, more);
                    lemma_atoms_around(pb, s, more);
                    assert(byte_atoms(pa) + seq![Atom::Other(s)] + atoms(more) =~= byte_atoms(
                        data.take(i),
                    ) + (byte_atoms(pb) + seq![Atom::Other(s)] + atoms(more)));
                },
                Ending::More(_) => {},
            },
            _ => {},
        }
    }
}

proof fn lemma_begins_more(s: Seq<u8>, b: Seq<u8>, m: Seq<u8>)
    requires
        s.len() > 0,
        m.len() > 0,
        !proper_prefix(s, m),
    ensures
        begins(s + b, m) == begins(s, m),
        !proper_prefix(s + b, m),
{
    let t = s + b;
    if s.len() >= m.len() {
        assert(t.take(m.len() as int) =~= s.take(m.len() as int));
    } else {
        if begins(t, m) {
            assert(m.take(s.len() as int) =~= s) by {
                assert(t.take(m.len() as int) == m);
                assert forall|i: int| 0 <= i < s.len() implies m[i] == s[i] by {
                    assert(t.take(m.len() as int)[i] == t[i]);
                }
            }
        }
        if proper_prefix(t, m) {
            assert(m.take(t.len() as int) == t);
            assert(m.take(s.len() as int) =~= s) by {
                assert forall|i: int| 0 <= i < s.len() implies m[i] == s[i] by {
                    assert(m.take(t.len() as int)[i] == t[i]);
                }
            }
        }
    }
}

proof fn lemma_params_end_more(s: Seq<u8>, b: Seq<u8>, j: int)
    requires
        0 <= j <= s.len(),
    ensures
        params_end(s, j) <= s.len(),
        params_end(s, j) < s.len() ==> params_end(s + b, j) == params_end(s, j),
    decreases s.len() - j,
{
    if j < s.len() {
        assert((s + b)[j] == s[j]);
        if 0x30 <= s[j] <= 0x39 || s[j] == 0x3b {
            lemma_params_end_more(s, b, j + 1);
        }
    }
}

proof fn lemma_params_end_from(s: Seq<u8>, j: int)
    requires
        0 <= j,
    ensures
        params_end(s, j) >= j,
    decreases s.len() - j,
{
    if j < s.len() && (0x30 <= s[j] <= 0x39 || s[j] == 0x3b) {
        lemma_params_end_from(s, j + 1);
    }
}

/// What begins at an ESC is decided by the bytes there, unless it waits for more.
proof fn lemma_opening_more(st: InterceptorState, s: Seq<u8>, b: Seq<u8>)
    requires
        s.len() > 0,
        st.opening(s) != Opening::Carry,
    ensures
        st.opening(s + b) == st.opening(s),
{
    if st.do_iterm && !proper_prefix(s, ITERM@) {
        lemma_begins_more(s, b, ITERM@);
    }
    if st.do_kitty && !proper_prefix(s, KITTY@) {
        lemma_begins_more(s, b, KITTY@);
    }
    if st.do_sixel && !proper_prefix(s, DCS@) {
        lemma_begins_more(s, b, DCS@);
    }
    assert(ITERM@.len() == 7 && KITTY@.len() == 3 && DCS@.len() == 2);
    assert(ITERM@[1] == 0x5d && KITTY@[1] == 0x5f && DCS@[1] == 0x50);
    if st.do_iterm && proper_prefix(s, ITERM@) {
        lemma_marker_prefix(s, ITERM@, KITTY@);
        lemma_marker_prefix(s, ITERM@, DCS@);
    }
    if st.do_kitty && proper_prefix(s, KITTY@) {
        lemma_marker_prefix(s, KITTY@, ITERM@);
        lemma_marker_prefix(s, KITTY@, DCS@);
    }
    if st.do_sixel && proper_prefix(s, DCS@) {
        lemma_marker_prefix(s, DCS@, ITERM@);
        lemma_marker_prefix(s, DCS@, KITTY@);
    }
    if begins(s, DCS@) {
        lemma_params_end_more(s, b, 2);
        lemma_params_end_from(s, 2);
        let j = params_end(s, 2);
        assert(j < s.len() ==> (s + b)[j] == s[j]);
    }
}

proof fn lemma_marker_prefix(s: Seq<u8>, m: Seq<u8>, n: Seq<u8>)
    requires
        proper_prefix(s, m),
        m.len() >= 2,
        n.len() >= 2,
        m[1] != n[1],
    ensures
        !begins(s, n),
{
    if begins(s, n) {
        assert(s.len() >= 2);
        assert(s.take(n.len() as int)[1] == n[1]);
        assert(m.take(s.len() as int)[1] == m[1]);
    }
}

/// The end of a sequence is decided by the bytes there, unless it waits for more.
proof fn lemma_string_end_more(s: Seq<u8>, b: Seq<u8>, m: Marker, from: int)
    requires
        0 <= from <= s.len(),
    ensures
        string_end(s, m, from) matches Ending::More(k) ==> from <= k <= s.len() && string_end(
            s + b,
            m,
            from,
        ) == string_end(s + b, m, k),
        !(string_end(s, m, from) is More) ==> string_end(s + b, m, from) == string_end(s, m, from),
{
    let t = s + b;
    lemma_first_stop(s, m, from);
    let k = first_stop(s, m, from);
    assert forall|j: int| from <= j < k implies !stops(m, #[trigger] t[j]) by {
        assert(t[j] == s[j]);
    }
    lemma_first_stop_skips(t, m, from, k);
    if k < s.len() {
        assert(t[k] == s[k]);
        assert(first_stop(t, m, k) == k);
        if k + 1 < s.len() {
            assert(t[k + 1] == s[k + 1]);
        }
    }
}

/// Nothing is held, and no sequence is in flight.
pub open spec fn at_rest(st: InterceptorState) -> bool {
    st.seq.len() == 0 && st.inflight is None && st.scan_from == 0 && !st.overflow
}

/// A sequence that waits for its end, and then gets more bytes.
proof fn lemma_held_then_feed(st: InterceptorState, rest: Seq<u8>, b: Seq<u8>, m: Marker)
    requires
        at_rest(st),
        rest.len() > 0,
        rest[0] == 0x1b,
        rest.len() <= MAX_SEQ_BYTES,
        st.opening(rest) == Opening::Start(m),
        string_end(rest, m, 1) is More,
    ensures
        ({
            let held = InterceptorState {
                seq: rest,
                inflight: Some(m),
                scan_from: string_end(rest, m, 1)->More_0,
                ..st
            };
            let (s2, o2) = held.capped(m).fed(b);
            s2 == st.scanned(rest + b).0 && o2 == st.scanned(rest + b).1
        }),
{
    let k = string_end(rest, m, 1)->More_0;
    let held = InterceptorState { seq: rest, inflight: Some(m), scan_from: k, ..st };
    let rb = rest + b;
    lemma_opening_more(st, rest, b);
    assert(rb.skip(0) =~= rb);
    assert(rb[0] == rest[0]);
    lemma_scan_at(st, rb, 0);
    assert(rb.take(0) =~= Seq::<u8>::empty());
    lemma_string_end_more(rest, b, m, 1);
    assert(held.capped(m) == held);
    assert(held.idle() =~= st);
    match string_end(rb, m, 1) {
        Ending::End(e) => {
            let (sp, seg) = st.parsed(m, rb.take(e));
            let s = tee_step(rb.take(e), seg);
            let more = sp.scanned(rb.skip(e)).1;
            assert(pass_steps(rb.take(0)) + seq![s] + more =~= seq![s] + more);
        },
        Ending::Abort(r) => {
            let s = StepView::TerminalOnly(rb.take(r));
            let more = st.cancelled(m).scanned(rb.skip(r)).1;
            assert(pass_steps(rb.take(0)) + seq![s] + more =~= seq![s] + more);
        },
        Ending::More(k2) => {
            let a = InterceptorState { seq: rb, scan_from: k2, ..held };
            let c = InterceptorState { seq: rb, inflight: Some(m), scan_from: k2, ..st };
            assert(a =~= c);
        },
    }
}

#[verifier::rlimit(60)]
proof fn lemma_scan_then_feed(st: InterceptorState, x: Seq<u8>, b: Seq<u8>)
    requires
        at_rest(st),
        !st.scanned(x).0.overflow,
    ensures
        ({
            let (s1, o1) = st.scanned(x);
            let (s2, o2) = s1.fed(b);
            let (s3, o3) = st.scanned(x + b);
            s2 == s3 && atoms(o1) + atoms(o2) == atoms(o3)
        }),
    decreases x.len(),
{
    let t = x + b;
    let i = st.first_opening(x, 0);
    lemma_first_opening(st, x, 0);
    assert forall|j: int| 0 <= j < i implies #[trigger] nothing_at(st, t, j) by {
        assert(nothing_at(st, x, j));
        assert(t.skip(j) =~= x.skip(j) + b);
        if x[j] == 0x1b {
            lemma_opening_more(st, x.skip(j), b);
        }
    }
    lemma_scan_prefix(st, t, i);
    lemma_scan_prefix(st, x, i);
    assert(t.take(i) =~= x.take(i));
    assert(t.skip(i) =~= x.skip(i) + b);
    let rest = x.skip(i);
    let (s1, o1) = st.scanned(x);
    let (s2, o2) = s1.fed(b);
    let (s3, o3) = st.scanned(t);
    if i >= x.len() {
        reveal(InterceptorState::scanned);
        assert(s1 == st);
        assert(st.idle() =~= st);
        assert(st.seq + b =~= b);
        assert(t.skip(i) =~= b);
        lemma_atoms_pass(x);
        assert(x.take(i) =~= x);
    } else {
        assert(!nothing_at(st, x, i));
        lemma_scan_at(st, x, i);
        match st.opening(rest) {
            Opening::Start(m) => {
                lemma_opening_more(st, rest, b);
                let rb = rest + b;
                assert(rb.skip(0) =~= rb);
                assert(rb[0] == x[i]);
                lemma_scan_at(st, rb, 0);
                assert(rb.take(0) =~= Seq::<u8>::empty());
                assert(byte_atoms(rb.take(0)) =~= Seq::<Atom>::empty());
                lemma_string_end_more(rest, b, m, 1);
                lemma_first_stop(rest, m, 1);
                let oc = st.scanned(rb).1;
                match string_end(rest, m, 1) {
                    Ending::End(e) => {
                        assert(rb.take(e) =~= rest.take(e));
                        assert(rb.skip(e) =~= rest.skip(e) + b);
                        let (sp, seg) = st.parsed(m, rest.take(e));
                        lemma_parsed_idle(st, m, rest.take(e));
                        lemma_scan_then_feed(sp, rest.skip(e), b);
                        let s = tee_step(rest.take(e), seg);
                        lemma_atoms_around(x.take(i), s, sp.scanned(rest.skip(e)).1);
                        lemma_atoms_around(rb.take(0), s, sp.scanned(rest.skip(e) + b).1);
                        assert(atoms(o1) + atoms(o2) =~= byte_atoms(x.take(i)) + atoms(oc));
                    },
                    Ending::Abort(r) => {
                        assert(rb.take(r) =~= rest.take(r));
                        assert(rb.skip(r) =~= rest.skip(r) + b);
                        let sp = st.cancelled(m);
                        lemma_scan_then_feed(sp, rest.skip(r), b);
                        let s = StepView::TerminalOnly(rest.take(r));
                        lemma_atoms_around(x.take(i), s, sp.scanned(rest.skip(r)).1);
                        lemma_atoms_around(rb.take(0), s, sp.scanned(rest.skip(r) + b).1);
                        assert(atoms(o1) + atoms(o2) =~= byte_atoms(x.take(i)) + atoms(oc));
                    },
                    Ending::More(k) => {
                        lemma_held_then_feed(st, rest, b, m);
                        lemma_atoms_pass(x.take(i));
                    },
                }
            },
            _ => {
                assert(s1.idle() =~= st);
                assert(s1.seq + b == t.skip(i));
                lemma_atoms_pass(x.take(i));
            },
        }
    }
}

/// How a stream is cut into reads does not matter: two reads give what one read of both
/// gives, and leave the same state, unless the first read ends within a sequence that has
/// outgrown its bound and is given up there.
pub proof fn law_reads_join(st: InterceptorState, a: Seq<u8>, b: Seq<u8>)
    requires
        st.ok(),
        !st.overflow,
        !st.fed(a).0.overflow,
    ensures
        ({
            let (s1, o1) = st.fed(a);
            let (s2, o2) = s1.fed(b);
            let (s3, o3) = st.fed(a + b);
            s2 == s3 && atoms(o1) + atoms(o2) == atoms(o3)
        }),
{
    let x = st.seq + a;
    assert(st.seq + (a + b) =~= x + b);
    let (s1, o1) = st.fed(a);
    let (s2, o2) = s1.fed(b);
    let (s3, o3) = st.fed(a + b);
    match st.inflight {
        None => {
            lemma_scan_then_feed(st.idle(), x, b);
        },
        Some(m) => {
            lemma_string_end_more(x, b, m, st.scan_from);
            lemma_first_stop(x, m, st.scan_from);
            match string_end(x, m, st.scan_from) {
                Ending::More(k) => {
                    assert(s1.seq + b == x + b);
                    assert(s1.idle() =~= st.idle());
                    assert(atoms(o1) + atoms(o2) =~= atoms(o2));
                    lemma_first_stop(x + b, m, k);
                    if let Ending::More(k2) = string_end(x + b, m, k) {
                        assert(s2 =~= s3);
                    }
                },
                Ending::End(e) => {
                    let rest = x.skip(e);
                    assert((x + b).take(e) =~= x.take(e));
                    assert((x + b).skip(e) =~= rest + b);
                    let (sp, seg) = st.idle().parsed(m, x.take(e));
                    lemma_parsed_idle(st.idle(), m, x.take(e));
                    lemma_scan_then_feed(sp, rest, b);
                    let s = tee_step(x.take(e), seg);
                    lemma_atoms_concat(seq![s], sp.scanned(rest).1);
                    lemma_atoms_concat(seq![s], sp.scanned(rest + b).1);
                    assert(atoms(o1) + atoms(o2) =~= atoms(o3));
                },
                Ending::Abort(r) => {
                    let rest = x.skip(r);
                    assert((x + b).take(r) =~= x.take(r));
                    assert((x + b).skip(r) =~= rest + b);
                    let sp = st.idle().cancelled(m);
                    lemma_scan_then_feed(sp, rest, b);
                    let s = StepView::TerminalOnly(x.take(r));
                    lemma_atoms_concat(seq![s], sp.scanned(rest).1);
                    lemma_atoms_concat(seq![s], sp.scanned(rest + b).1);
                    assert(atoms(o1) + atoms(o2) =~= atoms(o3));
                },
            }
        },
    }
}

/// The bytes that steps show on the local terminal.
pub open spec fn shown(s: Seq<StepView>) -> Seq<u8>
    decreases s.len(),
{
    if s.len() == 0 {
        Seq::empty()
    } else {
        (match tee_of(s[0]) {
            Some(b) => b,
            None => Seq::empty(),
        }) + shown(s.drop_first())
    }
}

pub(crate) proof fn lemma_shown_concat(a: Seq<StepView>, b: Seq<StepView>)
    ensures
        shown(a + b) == shown(a) + shown(b),
    decreases a.len(),
{
    if a.len() == 0 {
        assert(a + b =~= b);
        assert(shown(a) + shown(b) =~= shown(b));
    } else {
        assert((a + b).drop_first() =~= a.drop_first() + b);
        lemma_shown_concat(a.drop_first(), b);
        assert(shown(a + b) =~= shown(a) + shown(b));
    }
}

pub(crate) proof fn lemma_shown_one(s: StepView)
    ensures
        shown(seq![s]) == (match tee_of(s) {
            Some(b) => b,
            None => Seq::empty(),
        }),
{
    assert(seq![s].drop_first() =~= Seq::<StepView>::empty());
    assert(shown(seq![s].drop_first()) =~= Seq::<u8>::empty());
    assert(shown(seq![s]) =~= (match tee_of(s) {
        Some(b) => b,
        None => Seq::empty(),
    }));
}

/// Whether a step is what becomes of the bytes `p`: it shows them, or it is a refusal and they
/// are a kitty sequence.
pub open spec fn stands_for(s: StepView, p: Seq<u8>) -> bool {
    match tee_of(s) {
        Some(b) => b == p,
        None => begins(p, KITTY@),
    }
}

/// Pieces, one behind the other.
pub open spec fn joined(p: Seq<Seq<u8>>) -> Seq<u8>
    decreases p.len(),
{
    if p.len() == 0 {
        Seq::empty()
    } else {
        p[0] + joined(p.drop_first())
    }
}

/// Whether `data` is the pieces `p`, one for each step, and then what is held.
pub open spec fn cut_into(
    data: Seq<u8>,
    steps: Seq<StepView>,
    p: Seq<Seq<u8>>,
    held: Seq<u8>,
) -> bool {
    &&& p.len() == steps.len()
    &&& forall|i: int| 0 <= i < p.len() ==> stands_for(#[trigger] steps[i], p[i])
    &&& data == joined(p) + held
}

/// The pieces whose steps are no refusals.
pub open spec fn unrefused(steps: Seq<StepView>, p: Seq<Seq<u8>>) -> Seq<Seq<u8>>
    decreases steps.len(),
{
    if steps.len() == 0 || p.len() == 0 {
        Seq::empty()
    } else {
        (if steps[0] is Reject {
            Seq::empty()
        } else {
            seq![p[0]]
        }) + unrefused(steps.drop_first(), p.drop_first())
    }
}

/// What steps show are the pieces that are not refused.
proof fn lemma_shows_unrefused(steps: Seq<StepView>, p: Seq<Seq<u8>>)
    requires
        p.len() == steps.len(),
        forall|i: int| 0 <= i < p.len() ==> stands_for(#[trigger] steps[i], p[i]),
    ensures
        shown(steps) == joined(unrefused(steps, p)),
    decreases steps.len(),
{
    if steps.len() > 0 {
        let (s, q) = (steps.drop_first(), p.drop_first());
        assert forall|i: int| 0 <= i < q.len() implies stands_for(#[trigger] s[i], q[i]) by {
            assert(stands_for(steps[i + 1], p[i + 1]));
        }
        lemma_shows_unrefused(s, q);
        assert(stands_for(steps[0], p[0]));
        if steps[0] is Reject {
            assert(unrefused(steps, p) =~= unrefused(s, q));
            assert(shown(steps) =~= shown(s));
        } else {
            lemma_joined_concat(seq![p[0]], unrefused(s, q));
            lemma_joined_one(p[0]);
        }
    }
}

proof fn lemma_joined_concat(a: Seq<Seq<u8>>, b: Seq<Seq<u8>>)
    ensures
        joined(a + b) == joined(a) + joined(b),
    decreases a.len(),
{
    if a.len() == 0 {
        assert(a + b =~= b);
        assert(joined(a) + joined(b) =~= joined(b));
    } else {
        assert((a + b).drop_first() =~= a.drop_first() + b);
        lemma_joined_concat(a.drop_first(), b);
        assert(joined(a + b) =~= joined(a) + joined(b));
    }
}

proof fn lemma_joined_one(x: Seq<u8>)
    ensures
        joined(seq![x]) == x,
{
    assert(seq![x].drop_first() =~= Seq::<Seq<u8>>::empty());
    assert(joined(seq![x].drop_first()) =~= Seq::<u8>::empty());
    assert(joined(seq![x]) =~= x);
}

proof fn lemma_cut_nothing(held: Seq<u8>)
    ensures
        cut_into(held, Seq::empty(), Seq::empty(), held),
{
    assert(joined(Seq::empty()) + held =~= held);
}

proof fn lemma_cut_one(s: StepView, x: Seq<u8>, held: Seq<u8>)
    requires
        stands_for(s, x),
    ensures
        cut_into(x + held, seq![s], seq![x], held),
{
    lemma_joined_one(x);
}

proof fn lemma_cut_concat(
    a: Seq<u8>,
    s: Seq<StepView>,
    p: Seq<Seq<u8>>,
    b: Seq<u8>,
    t: Seq<StepView>,
    q: Seq<Seq<u8>>,
    held: Seq<u8>,
)
    requires
        cut_into(a, s, p, Seq::empty()),
        cut_into(b, t, q, held),
    ensures
        cut_into(a + b, s + t, p + q, held),
{
    lemma_joined_concat(p, q);
    assert(a + b =~= joined(p + q) + held);
    assert forall|i: int| 0 <= i < (p + q).len() implies stands_for(
        #[trigger] (s + t)[i],
        (p + q)[i],
    ) by {
        if i < p.len() {
            assert(stands_for(s[i], p[i]));
        } else {
            assert(stands_for(t[i - p.len()], q[i - p.len()]));
        }
    }
}

/// Plain bytes, and then what is held.
proof fn lemma_cut_pass(b: Seq<u8>, held: Seq<u8>) -> (p: Seq<Seq<u8>>)
    ensures
        cut_into(b + held, pass_steps(b), p, held),
{
    if b.len() > 0 {
        lemma_cut_one(StepView::Passthrough(b), b, held);
        seq![b]
    } else {
        lemma_cut_nothing(held);
        assert(b + held =~= held);
        Seq::empty()
    }
}

/// Plain bytes, a sequence, and what comes behind it.
proof fn lemma_cut_around(
    b: Seq<u8>,
    s: StepView,
    x: Seq<u8>,
    tail: Seq<u8>,
    more: Seq<StepView>,
    q: Seq<Seq<u8>>,
    held: Seq<u8>,
) -> (p: Seq<Seq<u8>>)
    requires
        stands_for(s, x),
        cut_into(tail, more, q, held),
    ensures
        cut_into(b + (x + tail), pass_steps(b) + seq![s] + more, p, held),
{
    let none = Seq::<u8>::empty();
    let pb = lemma_cut_pass(b, none);
    lemma_cut_one(s, x, none);
    assert(b + none =~= b);
    assert(x + none =~= x);
    lemma_cut_concat(b, pass_steps(b), pb, x, seq![s], seq![x], none);
    lemma_cut_concat(b + x, pass_steps(b) + seq![s], pb + seq![x], tail, more, q, held);
    assert((b + x) + tail =~= b + (x + tail));
    pb + seq![x] + q
}

/// A sequence does not end within its marker.
proof fn lemma_ends_behind_marker(s: Seq<u8>, m: Marker)
    requires
        begins(s, marker_bytes(m)),
    ensures
        string_end(s, m, 1) matches Ending::End(e) ==> begins(s.take(e), marker_bytes(m)),
{
    let n = marker_bytes(m).len() as int;
    let t = s.take(n);
    assert(t == marker_bytes(m));
    assert forall|j: int| 1 <= j < n implies !stops(m, #[trigger] s[j]) by {
        assert(s[j] == t[j]);
        assert(ITERM@[1] == 0x5d && ITERM@[2] == 0x31 && ITERM@[3] == 0x33 && ITERM@[4] == 0x33
            && ITERM@[5] == 0x37 && ITERM@[6] == 0x3b);
        assert(KITTY@[1] == 0x5f && KITTY@[2] == 0x47);
        assert(DCS@[1] == 0x50);
    }
    lemma_first_stop(s, m, 1);
    let k = first_stop(s, m, 1);
    if let Ending::End(e) = string_end(s, m, 1) {
        assert(k >= n);
        assert(s.take(e).take(n) =~= t);
    }
}

/// Without transcoding, a sequence is shown as it is, or it is a kitty sequence and refused.
proof fn lemma_parsed_stands(st: InterceptorState, m: Marker, seq: Seq<u8>)
    requires
        st.transcode is None,
        begins(seq, marker_bytes(m)),
    ensures
        stands_for(tee_step(seq, st.parsed(m, seq).1), seq),
{
    reveal(InterceptorState::parsed);
}

/// What [`InterceptorState::ok`] says of what is held.
spec fn held_ok(st: InterceptorState) -> bool {
    match st.inflight {
        Some(m) => {
            &&& begins(st.seq, marker_bytes(m))
            &&& 1 <= st.scan_from <= st.seq.len()
            &&& forall|j: int| 1 <= j < st.scan_from ==> !stops(m, #[trigger] st.seq[j])
        },
        None => st.scan_from == 0,
    }
}

#[verifier::rlimit(40)]
proof fn lemma_scan_cut(st: InterceptorState, data: Seq<u8>) -> (p: Seq<Seq<u8>>)
    requires
        at_rest(st),
        st.transcode is None,
        !st.scanned(data).0.overflow,
    ensures
        cut_into(data, st.scanned(data).1, p, st.scanned(data).0.seq),
        held_ok(st.scanned(data).0),
        st.scanned(data).0.transcode is None,
    decreases data.len(),
{
    let i = st.first_opening(data, 0);
    lemma_first_opening(st, data, 0);
    let none = Seq::<u8>::empty();
    if i >= data.len() {
        reveal(InterceptorState::scanned);
        assert(st.seq =~= none);
        assert(data + none =~= data);
        lemma_cut_pass(data, none)
    } else {
        assert(!nothing_at(st, data, i));
        lemma_scan_at(st, data, i);
        let rest = data.skip(i);
        let b = data.take(i);
        assert(b + rest =~= data);
        match st.opening(rest) {
            Opening::Start(m) => {
                assert(begins(rest, marker_bytes(m)));
                lemma_first_stop(rest, m, 1);
                lemma_ends_behind_marker(rest, m);
                match string_end(rest, m, 1) {
                    Ending::End(e) => {
                        let (sp, seg) = st.parsed(m, rest.take(e));
                        lemma_parsed_idle(st, m, rest.take(e));
                        lemma_parsed_stands(st, m, rest.take(e));
                        let q = lemma_scan_cut(sp, rest.skip(e));
                        assert(rest.take(e) + rest.skip(e) =~= rest);
                        lemma_cut_around(
                            b,
                            tee_step(rest.take(e), seg),
                            rest.take(e),
                            rest.skip(e),
                            sp.scanned(rest.skip(e)).1,
                            q,
                            st.scanned(data).0.seq,
                        )
                    },
                    Ending::Abort(r) => {
                        let sp = st.cancelled(m);
                        let q = lemma_scan_cut(sp, rest.skip(r));
                        assert(rest.take(r) + rest.skip(r) =~= rest);
                        lemma_cut_around(
                            b,
                            StepView::TerminalOnly(rest.take(r)),
                            rest.take(r),
                            rest.skip(r),
                            sp.scanned(rest.skip(r)).1,
                            q,
                            st.scanned(data).0.seq,
                        )
                    },
                    Ending::More(k) => lemma_cut_pass(b, rest),
                }
            },
            _ => lemma_cut_pass(b, rest),
        }
    }
}

/// One read, cut into pieces.
proof fn lemma_read_cut(st: InterceptorState, chunk: Seq<u8>) -> (p: Seq<Seq<u8>>)
    requires
        held_ok(st),
        !st.overflow,
        st.transcode is None,
        !st.fed(chunk).0.overflow,
    ensures
        cut_into(st.seq + chunk, st.fed(chunk).1, p, st.fed(chunk).0.seq),
        held_ok(st.fed(chunk).0),
        st.fed(chunk).0.transcode is None,
{
    let seq = st.seq + chunk;
    let (end, steps) = st.fed(chunk);
    let empty = Seq::<u8>::empty();
    match st.inflight {
        None => lemma_scan_cut(st.idle(), seq),
        Some(m) => {
            let n = marker_bytes(m).len() as int;
            assert(seq.take(n) =~= st.seq.take(n));
            assert forall|j: int| 1 <= j < st.scan_from implies !stops(m, #[trigger] seq[j]) by {
                assert(seq[j] == st.seq[j]);
            }
            lemma_first_stop_skips(seq, m, 1, st.scan_from);
            lemma_first_stop(seq, m, 1);
            lemma_ends_behind_marker(seq, m);
            match string_end(seq, m, st.scan_from) {
                Ending::More(k) => {
                    lemma_cut_nothing(seq);
                    Seq::empty()
                },
                Ending::End(e) => {
                    let (sp, seg) = st.idle().parsed(m, seq.take(e));
                    lemma_parsed_idle(st.idle(), m, seq.take(e));
                    lemma_parsed_stands(st.idle(), m, seq.take(e));
                    let s = tee_step(seq.take(e), seg);
                    let more = sp.scanned(seq.skip(e)).1;
                    let q = lemma_scan_cut(sp, seq.skip(e));
                    assert(pass_steps(empty) + seq![s] + more =~= steps);
                    assert(empty + (seq.take(e) + seq.skip(e)) =~= seq);
                    lemma_cut_around(empty, s, seq.take(e), seq.skip(e), more, q, end.seq)
                },
                Ending::Abort(r) => {
                    let sp = st.idle().cancelled(m);
                    let s = StepView::TerminalOnly(seq.take(r));
                    let more = sp.scanned(seq.skip(r)).1;
                    let q = lemma_scan_cut(sp, seq.skip(r));
                    assert(pass_steps(empty) + seq![s] + more =~= steps);
                    assert(empty + (seq.take(r) + seq.skip(r)) =~= seq);
                    lemma_cut_around(empty, s, seq.take(r), seq.skip(r), more, q, end.seq)
                },
            }
        },
    }
}

/// Reads, one after the other: the state after them, and all the steps.
pub open spec fn fed_all(st: InterceptorState, chunks: Seq<Seq<u8>>) -> (
    InterceptorState,
    Seq<StepView>,
)
    decreases chunks.len(),
{
    if chunks.len() == 0 {
        (st, Seq::empty())
    } else {
        let (next, steps) = st.fed(chunks[0]);
        let (end, more) = fed_all(next, chunks.drop_first());
        (end, steps + more)
    }
}

/// Whether none of the reads ends within a sequence that has outgrown its bound.
pub open spec fn none_given_up(st: InterceptorState, chunks: Seq<Seq<u8>>) -> bool
    decreases chunks.len(),
{
    chunks.len() > 0 ==> {
        let next = st.fed(chunks[0]).0;
        !next.overflow && none_given_up(next, chunks.drop_first())
    }
}

proof fn lemma_all_cut(st: InterceptorState, chunks: Seq<Seq<u8>>) -> (p: Seq<Seq<u8>>)
    requires
        held_ok(st),
        !st.overflow,
        st.transcode is None,
        none_given_up(st, chunks),
    ensures
        cut_into(st.seq + joined(chunks), fed_all(st, chunks).1, p, fed_all(st, chunks).0.seq),
    decreases chunks.len(),
{
    if chunks.len() == 0 {
        lemma_cut_nothing(st.seq);
        assert(st.seq + joined(chunks) =~= st.seq);
        Seq::empty()
    } else {
        let (next, steps) = st.fed(chunks[0]);
        let p = lemma_read_cut(st, chunks[0]);
        let q = lemma_all_cut(next, chunks.drop_first());
        let (end, more) = fed_all(next, chunks.drop_first());
        let tail = next.seq + joined(chunks.drop_first());
        let none = Seq::<u8>::empty();
        assert(joined(p) + none =~= joined(p));
        lemma_cut_concat(joined(p), steps, p, tail, more, q, end.seq);
        let later = joined(chunks.drop_first());
        assert(joined(chunks) == chunks[0] + later);
        assert(st.seq + (chunks[0] + later) =~= (st.seq + chunks[0]) + later);
        assert(joined(p) + tail =~= (joined(p) + next.seq) + later);
        p + q
    }
}

/// Nothing is lost, however many reads the stream comes in: what was held and then read is,
/// byte for byte and in order, one piece for each step and then what is still held. A step
/// shows its piece to the terminal as it is; the piece of a refused transfer is a kitty
/// sequence, and is not shown. So the terminal is shown the stream with the refused sequences
/// cut out. Where sixel images are turned into another protocol a step
/// shows that instead, and a sequence that outgrows its bound is given up: neither is meant
/// here.
pub proof fn law_nothing_lost(st: InterceptorState, chunks: Seq<Seq<u8>>)
    requires
        st.ok(),
        !st.overflow,
        st.transcode is None,
        none_given_up(st, chunks),
    ensures
        exists|p: Seq<Seq<u8>>|
            #[trigger] cut_into(
                st.seq + joined(chunks),
                fed_all(st, chunks).1,
                p,
                fed_all(st, chunks).0.seq,
            ) && shown(fed_all(st, chunks).1) == joined(unrefused(fed_all(st, chunks).1, p)),
{
    let p = lemma_all_cut(st, chunks);
    lemma_shows_unrefused(fed_all(st, chunks).1, p);
}

/// Whether bytes are a sequence that has not ended and has outgrown its bound.
pub open spec fn outgrown(s: Seq<u8>, m: Marker) -> bool {
    begins(s, marker_bytes(m)) && string_end(s, m, 1) is More && s.len() > MAX_SEQ_BYTES
}

proof fn lemma_scan_outgrown(st: InterceptorState, data: Seq<u8>) -> (k: int)
    requires
        at_rest(st),
    ensures
        st.scanned(data).0.overflow ==> {
            &&& 0 <= k <= data.len()
            &&& st.scanned(data).0.inflight matches Some(m) && outgrown(data.skip(k), m)
        },
    decreases data.len(),
{
    let i = st.first_opening(data, 0);
    lemma_first_opening(st, data, 0);
    if i >= data.len() {
        reveal(InterceptorState::scanned);
        0
    } else {
        assert(!nothing_at(st, data, i));
        lemma_scan_at(st, data, i);
        let rest = data.skip(i);
        match st.opening(rest) {
            Opening::Start(m) => {
                lemma_first_stop(rest, m, 1);
                match string_end(rest, m, 1) {
                    Ending::End(e) => {
                        lemma_parsed_idle(st, m, rest.take(e));
                        let k = lemma_scan_outgrown(st.parsed(m, rest.take(e)).0, rest.skip(e));
                        assert(0 <= k <= rest.skip(e).len() ==> rest.skip(e).skip(k) =~= data.skip(
                            i + e + k,
                        ));
                        i + e + k
                    },
                    Ending::Abort(r) => {
                        let k = lemma_scan_outgrown(st.cancelled(m), rest.skip(r));
                        assert(0 <= k <= rest.skip(r).len() ==> rest.skip(r).skip(k) =~= data.skip(
                            i + r + k,
                        ));
                        i + r + k
                    },
                    Ending::More(_) => i,
                }
            },
            _ => i,
        }
    }
}

/// A sequence is given up only where it has outgrown its bound: the bytes at the end of what
/// was held and read are such a sequence.
pub proof fn law_only_outgrown_sequences_are_given_up(st: InterceptorState, chunk: Seq<u8>)
    requires
        st.ok(),
        !st.overflow,
        st.fed(chunk).0.overflow,
    ensures
        exists|k: int, m: Marker|
            0 <= k <= (st.seq + chunk).len() && #[trigger] outgrown((st.seq + chunk).skip(k), m),
{
    let seq = st.seq + chunk;
    match st.inflight {
        None => {
            let k = lemma_scan_outgrown(st.idle(), seq);
            let m = st.fed(chunk).0.inflight->0;
            assert(outgrown(seq.skip(k), m));
        },
        Some(m) => {
            let n = marker_bytes(m).len() as int;
            assert(seq.take(n) =~= st.seq.take(n));
            assert forall|j: int| 1 <= j < st.scan_from implies !stops(m, #[trigger] seq[j]) by {
                assert(seq[j] == st.seq[j]);
            }
            lemma_first_stop_skips(seq, m, 1, st.scan_from);
            lemma_first_stop(seq, m, 1);
            match string_end(seq, m, st.scan_from) {
                Ending::More(_) => {
                    assert(seq.skip(0) =~= seq);
                    assert(outgrown(seq.skip(0), m));
                },
                Ending::End(e) => {
                    lemma_parsed_idle(st.idle(), m, seq.take(e));
                    let sp = st.idle().parsed(m, seq.take(e)).0;
                    let k = lemma_scan_outgrown(sp, seq.skip(e));
                    assert(seq.skip(e).skip(k) =~= seq.skip(e + k));
                    assert(outgrown(seq.skip(e + k), st.fed(chunk).0.inflight->0));
                },
                Ending::Abort(r) => {
                    let k = lemma_scan_outgrown(st.idle().cancelled(m), seq.skip(r));
                    assert(seq.skip(r).skip(k) =~= seq.skip(r + k));
                    assert(outgrown(seq.skip(r + k), st.fed(chunk).0.inflight->0));
                },
            }
        },
    }
}

/// A kitty transfer of a file or of shared memory is refused when it is complete: the
/// terminal is shown nothing of its last sequence, no image comes of it, and the
/// application is sent the error.
pub proof fn law_indirect_transfers_are_refused(st: InterceptorState, seq: Seq<u8>)
    requires
        kv_get(kitty_control(seq), "m"@) != Some("1"@),
        ({
            let acc = match st.kitty {
                Some(a) => a,
                None => kitty_opened(kitty_control(seq)),
            };
            acc.medium == KittyMedium::File || acc.medium == KittyMedium::Shm
        }),
    ensures
        st.parsed(Marker::Kitty, seq).1 == SegmentView::Reject(
            encode_utf8(kitty_refusal(kitty_control(seq))),
        ),
        tee_of(tee_step(seq, st.parsed(Marker::Kitty, seq).1)) is None,
{
    reveal(InterceptorState::parsed);
}

/// A sequence in flight never takes more memory than its bound, and one that was given up
/// at most one byte.
pub proof fn law_held_bytes_are_bounded(st: InterceptorState, chunk: Seq<u8>)
    requires
        st.ok(),
    ensures
        ({
            let end = st.fed(chunk).0;
            end.inflight is Some ==> {
                &&& end.seq.len() <= MAX_SEQ_BYTES
                &&& end.overflow ==> end.seq.len() <= 1
            }
        }),
{
    let seq = st.seq + chunk;
    match st.inflight {
        None => {
            lemma_scan_bounded(st.idle(), seq);
        },
        Some(m) => {
            lemma_first_stop(seq, m, st.scan_from);
            match string_end(seq, m, st.scan_from) {
                Ending::More(k) => {},
                Ending::End(e) => {
                    lemma_parsed_idle(st.idle(), m, seq.take(e));
                    let sp = if st.overflow {
                        st.idle().cancelled(m)
                    } else {
                        st.idle().parsed(m, seq.take(e)).0
                    };
                    lemma_scan_bounded(sp, seq.skip(e));
                },
                Ending::Abort(r) => {
                    lemma_scan_bounded(st.idle().cancelled(m), seq.skip(r));
                },
            }
        },
    }
}

proof fn lemma_scan_bounded(st: InterceptorState, data: Seq<u8>)
    requires
        at_rest(st),
    ensures
        ({
            let end = st.scanned(data).0;
            end.inflight is Some ==> {
                &&& end.seq.len() <= MAX_SEQ_BYTES
                &&& end.overflow ==> end.seq.len() <= 1
            }
        }),
    decreases data.len(),
{
    let i = st.first_opening(data, 0);
    lemma_first_opening(st, data, 0);
    if i >= data.len() {
        reveal(InterceptorState::scanned);
    } else {
        assert(!nothing_at(st, data, i));
        lemma_scan_at(st, data, i);
        let rest = data.skip(i);
        if let Opening::Start(m) = st.opening(rest) {
            lemma_first_stop(rest, m, 1);
            match string_end(rest, m, 1) {
                Ending::End(e) => {
                    lemma_parsed_idle(st, m, rest.take(e));
                    lemma_scan_bounded(st.parsed(m, rest.take(e)).0, rest.skip(e));
                },
                Ending::Abort(r) => {
                    lemma_scan_bounded(st.cancelled(m), rest.skip(r));
                },
                Ending::More(k) => {},
            }
        }
    }
}

/// Bytes without an ESC, and all bytes where every protocol is left to the terminal, pass
/// as they are.
pub proof fn law_plain_bytes_pass(st: InterceptorState, chunk: Seq<u8>)
    requires
        at_rest(st),
        (!st.do_kitty && !st.do_iterm && !st.do_sixel) || !chunk.contains(0x1b),
    ensures
        st.fed(chunk) == (st, pass_steps(chunk)),
{
    assert(st.seq + chunk =~= chunk);
    assert(st.idle() =~= st);
    assert forall|j: int| 0 <= j < chunk.len() implies #[trigger] nothing_at(st, chunk, j) by {
        if chunk[j] == 0x1b {
            assert(chunk.contains(0x1b));
        }
    }
    lemma_first_opening_is(st, chunk, 0, chunk.len() as int);
    reveal(InterceptorState::scanned);
}

proof fn lemma_newest_is_found(c: Seq<CachedView>, e: CachedView)
    requires
        cache_find(c, e.key) is None,
    ensures
        cache_find(cache_trimmed(c.push(e)), e.key) == Some(e),
    decreases c.len(),
{
    let d = c.push(e);
    if c.len() > 0 {
        assert(d.drop_first() =~= c.drop_first().push(e));
        lemma_newest_is_found(c.drop_first(), e);
        lemma_newest_found_untrimmed(c, e);
    } else {
        assert(d[0] == e);
    }
}

proof fn lemma_newest_found_untrimmed(c: Seq<CachedView>, e: CachedView)
    requires
        cache_find(c, e.key) is None,
    ensures
        cache_find(c.push(e), e.key) == Some(e),
    decreases c.len(),
{
    if c.len() > 0 {
        assert(c.push(e).drop_first() =~= c.drop_first().push(e));
        lemma_newest_found_untrimmed(c.drop_first(), e);
    } else {
        assert(c.push(e)[0] == e);
    }
}

/// A transcoded sixel image that comes again keeps its number and is not sent again: the
/// second time leaves the state as it is.
pub proof fn law_transcoded_image_is_sent_once(st: InterceptorState, seq: Seq<u8>, proto: GfxProto)
    requires
        cache_find(st.cache, seq) is None,
        finished(PayloadView::Sixel(seq), false) matches Some(f) && f.0.len() <= MAX_IMAGE_BYTES,
    ensures
        ({
            let (s1, seg1) = st.sixel_transcoded(seq, proto);
            let (s2, seg2) = s1.sixel_transcoded(seq, proto);
            exists|e: CachedView|
                e.key == seq && seg1 == #[trigger] InterceptorState::transcoded_segment(
                    proto,
                    e,
                    true,
                ) && seg2 == InterceptorState::transcoded_segment(proto, e, false) && s2 == s1
        }),
{
    let (s1, seg1) = st.sixel_transcoded(seq, proto);
    let f = finished(PayloadView::Sixel(seq), false)->0;
    let e = CachedView {
        key: seq,
        id: (st.number_after() % 0x100_0000) as u32,
        cells: (
            crate::images::cell_count(f.1.0, st.cell.0),
            crate::images::cell_count(f.1.1, st.cell.1),
        ),
        px: f.1,
        png: f.0,
    };
    lemma_newest_is_found(st.cache, e);
    assert(seg1 == InterceptorState::transcoded_segment(proto, e, true));
}

} // verus!
