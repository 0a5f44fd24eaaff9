//! What the listing of a multiplexer's panes and the directory of a font say.
use crate::sfnt::{
    be16, be32, header, log_below, power_below, record, table_offset, u16_at, u32_at, TableView,
};
use crate::text::{dec, is_digit, law_decimal_reads_back, lemma_dec_digits, white_space};
use crate::tmux::{pane_of, word_end, words, PaneView};
use vstd::arithmetic::power2::pow2;
use vstd::prelude::*;

verus! {

/// Whether a text is one word.
pub open spec fn is_word(w: Seq<char>) -> bool {
    w.len() > 0 && forall|i: int| 0 <= i < w.len() ==> !white_space(#[trigger] w[i])
}

/// Words with a space between them.
pub open spec fn spaced(w: Seq<Seq<char>>) -> Seq<char>
    decreases w.len(),
{
    if w.len() == 0 {
        Seq::empty()
    } else if w.len() == 1 {
        w[0]
    } else {
        w[0] + seq![' '] + spaced(w.skip(1))
    }
}

proof fn lemma_word_end(w: Seq<char>, rest: Seq<char>)
    requires
        forall|i: int| 0 <= i < w.len() ==> !white_space(#[trigger] w[i]),
        rest.len() == 0 || white_space(rest[0]),
    ensures
        word_end(w + rest) == w.len(),
    decreases w.len(),
{
    let s = w + rest;
    if w.len() > 0 {
        let v = w.drop_first();
        assert forall|i: int| 0 <= i < v.len() implies !white_space(#[trigger] v[i]) by {
            assert(!white_space(w[i + 1]));
        }
        lemma_word_end(v, rest);
        assert(s.drop_first() =~= v + rest);
        assert(s[0] == w[0]);
    } else {
        assert(s =~= rest);
    }
}

/// Words with spaces between them are read as these words.
pub proof fn law_words_are_read(w: Seq<Seq<char>>)
    requires
        forall|i: int| 0 <= i < w.len() ==> is_word(#[trigger] w[i]),
    ensures
        words(spaced(w)) == w,
    decreases w.len(),
{
    if w.len() == 0 {
        assert(w =~= Seq::empty());
    } else if w.len() == 1 {
        let s = w[0];
        assert(is_word(w[0]));
        lemma_word_end(s, Seq::empty());
        assert(s + Seq::empty() =~= s);
        assert(s.take(s.len() as int) =~= s);
        assert(s.skip(s.len() as int) =~= Seq::empty());
        assert(words(s.skip(s.len() as int)) =~= Seq::empty());
        assert(words(s) =~= w);
    } else {
        let v = w.skip(1);
        assert(is_word(w[0]));
        assert forall|i: int| 0 <= i < v.len() implies is_word(#[trigger] v[i]) by {
            assert(is_word(w[i + 1]));
        }
        law_words_are_read(v);
        let more = seq![' '] + spaced(v);
        let s = spaced(w);
        let k = w[0].len() as int;
        assert(s =~= w[0] + more);
        lemma_word_end(w[0], more);
        assert(s.take(k) =~= w[0]);
        assert(s.skip(k) =~= more);
        assert(word_end(more) == 0);
        assert(more.drop_first() =~= spaced(v));
        assert(words(more) == words(more.drop_first()));
        assert(words(s) =~= w);
    }
}

/// The line of a pane: its id, the column and row of its corner, its columns and rows, whether
/// it is the active one, and the column and row of its cursor.
pub open spec fn pane_line(p: PaneView) -> Seq<char> {
    spaced(
        seq![
            p.id,
            dec(p.left as nat),
            dec(p.top as nat),
            dec(p.width as nat),
            dec(p.height as nat),
            if p.active {
                seq!['1']
            } else {
                seq!['0']
            },
            dec(p.cursor.0 as nat),
            dec(p.cursor.1 as nat),
        ],
    )
}

proof fn lemma_number_word(n: u16)
    ensures
        is_word(dec(n as nat)),
        crate::tmux::number(dec(n as nat)) == Some(n),
{
    lemma_dec_digits(n as nat);
    law_decimal_reads_back(n as nat, 65535);
    let d = dec(n as nat);
    assert forall|i: int| 0 <= i < d.len() implies !white_space(#[trigger] d[i]) by {
        assert(is_digit(d[i]));
    }
}

/// The line of a pane reads back as that pane.
pub proof fn law_pane_line_reads_back(p: PaneView)
    requires
        is_word(p.id),
    ensures
        pane_of(pane_line(p)) == Some(p),
{
    reveal_strlit("1");
    lemma_number_word(p.left);
    lemma_number_word(p.top);
    lemma_number_word(p.width);
    lemma_number_word(p.height);
    lemma_number_word(p.cursor.0);
    lemma_number_word(p.cursor.1);
    let a = if p.active {
        seq!['1']
    } else {
        seq!['0']
    };
    let w = seq![
        p.id,
        dec(p.left as nat),
        dec(p.top as nat),
        dec(p.width as nat),
        dec(p.height as nat),
        a,
        dec(p.cursor.0 as nat),
        dec(p.cursor.1 as nat),
    ];
    assert(is_word(a));
    law_words_are_read(w);
    assert("1"@ =~= seq!['1']);
    assert(seq!['0'][0] != seq!['1'][0]);
    assert(w[0] == p.id && w[1] == dec(p.left as nat) && w[2] == dec(p.top as nat) && w[3] == dec(
        p.width as nat,
    ) && w[4] == dec(p.height as nat) && w[5] == a && w[6] == dec(p.cursor.0 as nat) && w[7] == dec(
        p.cursor.1 as nat,
    ));
}

/// Numbers in a font file read back as they were written.
pub proof fn law_font_numbers_read_back(v: int, w: int, before: Seq<u8>, after: Seq<u8>)
    requires
        0 <= v < 0x1_0000,
        0 <= w < 0x1_0000_0000,
    ensures
        u16_at(before + be16(v) + after, before.len() as int) == Some(v),
        u32_at(before + be32(w) + after, before.len() as int) == Some(w),
{
    let n = before.len() as int;
    let s = before + be16(v) + after;
    assert(s[n] == be16(v)[0] && s[n + 1] == be16(v)[1]);
    let t = before + be32(w) + after;
    assert(t[n] == be32(w)[0] && t[n + 1] == be32(w)[1] && t[n + 2] == be32(w)[2] && t[n + 3] == be32(
        w,
    )[3]);
}

/// What a binary search of the directory needs: a power of two that is no more than the number
/// of tables, more than half of it, and its exponent.
pub proof fn law_search_range(n: nat)
    requires
        n >= 1,
    ensures
        power_below(n) <= n < 2 * power_below(n),
        power_below(n) == pow2(log_below(n)),
    decreases n,
{
    vstd::arithmetic::power2::lemma2_to64();
    if n >= 2 {
        law_search_range(n / 2);
        vstd::arithmetic::power2::lemma_pow2_unfold(log_below(n));
    }
}

/// The start of a font file says how many tables there are, behind the version.
pub proof fn law_header_counts_the_tables(version: Seq<u8>, n: nat)
    requires
        version.len() == 4,
        n < 0x1_0000,
    ensures
        header(version, n).len() == 12,
        header(version, n).take(4) == version,
        u16_at(header(version, n), 4) == Some(n as int),
{
    let h = header(version, n);
    assert(h.take(4) =~= version);
    assert(h[4] == be16(n as int)[0] && h[5] == be16(n as int)[1]);
}

/// The entry of a table in the directory has its tag, its checksum, where it begins and how long
/// it is.
pub proof fn law_entry_tells_of_its_table(t: Seq<TableView>, k: int)
    requires
        0 <= k < t.len(),
        t[k].tag.len() == 4,
        0 <= t[k].checksum < 0x1_0000_0000,
        table_offset(t, k) < 0x1_0000_0000,
        t[k].body.len() < 0x1_0000_0000,
    ensures
        record(t, k).len() == 16,
        record(t, k).take(4) == t[k].tag,
        u32_at(record(t, k), 4) == Some(t[k].checksum),
        u32_at(record(t, k), 8) == Some(table_offset(t, k)),
        u32_at(record(t, k), 12) == Some(t[k].body.len() as int),
{
    let r = record(t, k);
    assert(r.take(4) =~= t[k].tag);
    let (c, o, l) = (
        be32(t[k].checksum),
        be32(table_offset(t, k) % 0x1_0000_0000),
        be32(t[k].body.len() as int),
    );
    let tag = t[k].tag;
    let none = Seq::<u8>::empty();
    assert(table_offset(t, k) >= 0);
    assert(r =~= tag + c + (o + l));
    law_font_numbers_read_back(0, t[k].checksum, tag, o + l);
    assert(r =~= tag + c + o + l);
    law_font_numbers_read_back(0, table_offset(t, k), tag + c, l);
    assert(r =~= tag + c + o + l + none);
    law_font_numbers_read_back(0, t[k].body.len() as int, tag + c + o, none);
}

} // verus!
