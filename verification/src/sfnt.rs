//! Font files as single web fonts.
//!
//! A browser takes one face to a file. A face of a TrueType or OpenType file, or of a
//! collection, is written out as a file of its own: a table directory, the tables at
//! offsets that are multiples of four, and the checksum in the `head` table made right.
use crate::b64::{standard_b64_text, standard_encode};
use crate::proto::FontAsset;
use crate::text::{begins, copy_bytes, push_bytes, same_bytes, same_text, starts_with};
use vstd::prelude::*;
use vstd::slice::slice_subrange;
use vstd::string::*;

verus! {

/// What the checksum of a font file comes to.
pub const MAGIC: u32 = 0xB1B0_AFBA;

/// Sixteen bits, the high byte first.
pub open spec fn be16(v: int) -> Seq<u8> {
    seq![(v / 256 % 256) as u8, (v % 256) as u8]
}

/// Thirty-two bits, the high byte first.
pub open spec fn be32(v: int) -> Seq<u8> {
    seq![
        (v / 0x100_0000 % 256) as u8,
        (v / 0x1_0000 % 256) as u8,
        (v / 0x100 % 256) as u8,
        (v % 256) as u8,
    ]
}

/// The sixteen bits at `at`.
pub open spec fn u16_at(d: Seq<u8>, at: int) -> Option<int> {
    if 0 <= at && at + 2 <= d.len() {
        Some(d[at] * 256 + d[at + 1])
    } else {
        None
    }
}

/// Four bytes as a number, the high byte first.
pub open spec fn word(a: u8, b: u8, c: u8, d: u8) -> int {
    a * 0x100_0000 + b * 0x1_0000 + c * 0x100 + d
}

/// The thirty-two bits at `at`.
pub open spec fn u32_at(d: Seq<u8>, at: int) -> Option<int> {
    if 0 <= at && at + 4 <= d.len() {
        Some(word(d[at], d[at + 1], d[at + 2], d[at + 3]))
    } else {
        None
    }
}

fn read_u16(d: &[u8], at: u64) -> (r: Option<u16>)
    requires
        at < 0x1_0000_0000_0000,
    ensures
        r is Some <==> u16_at(d@, at as int) is Some,
        r matches Some(v) ==> u16_at(d@, at as int) == Some(v as int),
{
    if at + 2 <= d.len() as u64 {
        let i: usize = at as usize;
        Some(d[i] as u16 * 256 + d[i + 1] as u16)
    } else {
        None
    }
}

fn read_u32(d: &[u8], at: u64) -> (r: Option<u32>)
    requires
        at < 0x1_0000_0000_0000,
    ensures
        r is Some <==> u32_at(d@, at as int) is Some,
        r matches Some(v) ==> u32_at(d@, at as int) == Some(v as int),
{
    if at + 4 <= d.len() as u64 {
        let i: usize = at as usize;
        Some(
            d[i] as u32 * 0x100_0000 + d[i + 1] as u32 * 0x1_0000 + d[i + 2] as u32 * 0x100
                + d[i + 3] as u32,
        )
    } else {
        None
    }
}

/// The `i`-th byte; zero past the end.
pub open spec fn byte_or_zero(d: Seq<u8>, i: int) -> u8 {
    if 0 <= i < d.len() {
        d[i]
    } else {
        0
    }
}

/// The sum of the data as thirty-two-bit words, a last partial word filled up with zeros.
pub open spec fn checksum(d: Seq<u8>) -> int
    decreases d.len(),
{
    if d.len() == 0 {
        0
    } else {
        let w = word(
            d[0],
            byte_or_zero(d, 1),
            byte_or_zero(d, 2),
            byte_or_zero(d, 3),
        );
        let rest = if d.len() <= 4 {
            Seq::empty()
        } else {
            d.skip(4)
        };
        (w + checksum(rest)) % 0x1_0000_0000
    }
}

proof fn lemma_checksum_range(d: Seq<u8>)
    ensures
        0 <= checksum(d) < 0x1_0000_0000,
{
}

/// Sums wrap the same whether or not a part of them was wrapped before.
proof fn lemma_wrap(a: int, b: int)
    ensures
        (a + b % 0x1_0000_0000) % 0x1_0000_0000 == (a + b) % 0x1_0000_0000,
        (a % 0x1_0000_0000 + b) % 0x1_0000_0000 == (a + b) % 0x1_0000_0000,
{
}

/// The checksum of data, from its first word and the rest.
proof fn lemma_checksum_first(d: Seq<u8>, w: int, rest: Seq<u8>)
    requires
        d.len() > 0,
        w == word(d[0], byte_or_zero(d, 1), byte_or_zero(d, 2), byte_or_zero(d, 3)),
        rest == (if d.len() <= 4 {
            Seq::empty()
        } else {
            d.skip(4)
        }),
    ensures
        checksum(d) == (w + checksum(rest)) % 0x1_0000_0000,
{
}

fn byte_at(d: &[u8], i: usize, k: usize) -> (r: u8)
    requires
        i <= d@.len(),
        k < 4,
    ensures
        r == byte_or_zero(d@.skip(i as int), k as int),
{
    if k < d.len() - i {
        assert(d@.skip(i as int)[k as int] == d@[i + k]);
        d[i + k]
    } else {
        0
    }
}

/// The sum of the data as thirty-two-bit words.
pub fn sfnt_checksum(d: &[u8]) -> (r: u32)
    ensures
        r == checksum(d@),
{
    let mut acc: u32 = 0;
    let mut i: usize = 0;
    assert(d@.skip(0) =~= d@);
    while i < d.len()
        invariant
            i <= d@.len(),
            (acc + checksum(d@.skip(i as int))) % 0x1_0000_0000 == checksum(d@),
        decreases d@.len() - i,
    {
        let ghost rest = d@.skip(i as int);
        assert(rest[0] == d@[i as int]);
        let w: u32 = d[i] as u32 * 0x100_0000 + byte_at(d, i, 1) as u32 * 0x1_0000 + byte_at(d, i, 2)
            as u32 * 0x100 + byte_at(d, i, 3) as u32;
        let n: usize = if d.len() - i <= 4 {
            d.len()
        } else {
            i + 4
        };
        proof {
            let tail = d@.skip(n as int);
            if d@.len() - i <= 4 {
                assert(tail =~= Seq::<u8>::empty());
            } else {
                assert(tail =~= rest.skip(4));
            }
            lemma_checksum_first(rest, w as int, tail);
            lemma_wrap(acc as int, w + checksum(tail));
            lemma_wrap(acc + w, checksum(tail));
        }
        acc = acc.wrapping_add(w);
        i = n;
    }
    assert(d@.skip(i as int) =~= Seq::<u8>::empty());
    proof {
        lemma_checksum_range(d@);
    }
    acc
}

// ---- reading a face ----

/// One table of a face.
#[verifier::ext_equal]
pub ghost struct TableView {
    pub tag: Seq<u8>,
    pub checksum: int,
    pub body: Seq<u8>,
}

/// Where the directory of face `index` stands: in a collection where its header says, else
/// at the start.
pub open spec fn face_start(d: Seq<u8>, index: int) -> Option<int> {
    if d.len() < 4 {
        None
    } else if d.take(4) == "ttcf".spec_bytes() {
        match u32_at(d, 8) {
            Some(num) => if index >= num {
                None
            } else {
                u32_at(d, 12 + 4 * index)
            },
            None => None,
        }
    } else {
        Some(0)
    }
}

/// The table whose directory entry stands at `rec`.
pub open spec fn table_at(d: Seq<u8>, rec: int) -> Option<TableView> {
    match (u32_at(d, rec + 4), u32_at(d, rec + 8), u32_at(d, rec + 12)) {
        (Some(sum), Some(off), Some(len)) => if off + len <= d.len() {
            Some(
                TableView {
                    tag: d.subrange(rec, rec + 4),
                    checksum: sum,
                    body: d.subrange(off, off + len),
                },
            )
        } else {
            None
        },
        _ => None,
    }
}

/// The first `n` tables of the directory at `dir`.
pub open spec fn tables_at(d: Seq<u8>, dir: int, n: nat) -> Option<Seq<TableView>>
    decreases n,
{
    if n == 0 {
        Some(Seq::empty())
    } else {
        match (tables_at(d, dir, (n - 1) as nat), table_at(d, dir + 12 + (n - 1) * 16)) {
            (Some(before), Some(t)) => Some(before.push(t)),
            _ => None,
        }
    }
}

// ---- writing a face ----

/// `s`, filled up with zeros to a length that is a multiple of four.
pub open spec fn aligned(s: Seq<u8>) -> Seq<u8> {
    s + Seq::new(((4 - s.len() % 4) % 4) as nat, |i: int| 0u8)
}

/// The tables one after the other, each at a multiple of four.
pub open spec fn bodies(t: Seq<TableView>) -> Seq<u8>
    decreases t.len(),
{
    if t.len() == 0 {
        Seq::empty()
    } else {
        aligned(bodies(t.drop_last())) + t.last().body
    }
}

/// Where table `k` of the written face begins.
pub open spec fn table_offset(t: Seq<TableView>, k: int) -> int {
    (12 + 16 * t.len() + aligned(bodies(t.take(k))).len()) as int
}

/// The directory entry of table `k`.
pub open spec fn record(t: Seq<TableView>, k: int) -> Seq<u8> {
    t[k].tag + be32(t[k].checksum) + be32(table_offset(t, k) % 0x1_0000_0000) + be32(
        t[k].body.len() as int,
    )
}

/// The first `n` directory entries.
pub open spec fn records(t: Seq<TableView>, n: nat) -> Seq<u8>
    decreases n,
{
    if n == 0 {
        Seq::empty()
    } else {
        records(t, (n - 1) as nat) + record(t, n - 1)
    }
}

/// The largest power of two up to `n`.
pub open spec fn power_below(n: nat) -> nat
    decreases n,
{
    if n < 2 {
        1
    } else {
        2 * power_below(n / 2)
    }
}

/// The exponent of the largest power of two up to `n`.
pub open spec fn log_below(n: nat) -> nat
    decreases n,
{
    if n < 2 {
        0
    } else {
        1 + log_below(n / 2)
    }
}

/// The start of the file: the version, the number of tables, and what a binary search of the
/// directory needs.
pub open spec fn header(version: Seq<u8>, n: nat) -> Seq<u8> {
    version + be16(n as int) + be16((power_below(n) * 16 % 65536) as int) + be16(log_below(n) as int) + be16(
        (n - power_below(n)) * 16 % 65536,
    )
}

/// The file before its checksum is made right.
pub open spec fn plain_face(version: Seq<u8>, t: Seq<TableView>) -> Seq<u8> {
    header(version, t.len()) + records(t, t.len()) + bodies(t)
}

/// Where the last `head` table among the first `n` begins.
pub open spec fn head_offset(t: Seq<TableView>, n: nat) -> Option<int>
    decreases n,
{
    if n == 0 {
        None
    } else if t[n - 1].tag == "head".spec_bytes() {
        Some(table_offset(t, n - 1) % 0x1_0000_0000)
    } else {
        head_offset(t, (n - 1) as nat)
    }
}

/// `s` with the bytes from `at` on replaced by `v`.
pub open spec fn spliced(s: Seq<u8>, at: int, v: Seq<u8>) -> Seq<u8> {
    s.take(at) + v + s.skip(at + v.len())
}

/// The file with the checksum adjustment of the `head` table at `h` made right: the sum over
/// the whole file then is [`MAGIC`].
pub open spec fn adjusted(out: Seq<u8>, h: int) -> Seq<u8> {
    if h + 12 <= out.len() {
        let zeroed = spliced(out, h + 8, be32(0));
        spliced(out, h + 8, be32((MAGIC - checksum(zeroed)) % 0x1_0000_0000))
    } else {
        out
    }
}

/// A face as a file of its own.
pub open spec fn face_file(version: Seq<u8>, t: Seq<TableView>) -> Seq<u8> {
    match head_offset(t, t.len()) {
        Some(h) => adjusted(plain_face(version, t), h),
        None => plain_face(version, t),
    }
}

/// Face `index` of a font file as a file of its own, with its format; `None` where the file
/// is not well-formed.
pub open spec fn extracted(d: Seq<u8>, index: int) -> Option<(Seq<u8>, Seq<char>)> {
    match face_start(d, index) {
        Some(dir) => match u16_at(d, dir + 4) {
            Some(n) => if n == 0 {
                None
            } else {
                match tables_at(d, dir, n as nat) {
                    Some(t) => {
                        let version = d.subrange(dir, dir + 4);
                        Some(
                            (
                                face_file(version, t),
                                if version == "OTTO".spec_bytes() {
                                    "opentype"@
                                } else {
                                    "truetype"@
                                },
                            ),
                        )
                    },
                    None => None,
                }
            },
            None => None,
        },
        None => None,
    }
}

struct Table {
    tag: Vec<u8>,
    checksum: u32,
    body: Vec<u8>,
}

impl Table {
    spec fn model(&self) -> TableView {
        TableView { tag: self.tag@, checksum: self.checksum as int, body: self.body@ }
    }
}

spec fn table_views(s: Seq<Table>) -> Seq<TableView> {
    Seq::new(s.len(), |i: int| s[i].model())
}

fn push_be16(out: &mut Vec<u8>, v: u16)
    ensures
        final(out)@ == old(out)@ + be16(v as int),
{
    out.push((v / 256 % 256) as u8);
    out.push((v % 256) as u8);
    assert(out@ =~= old(out)@ + be16(v as int));
}

fn push_be32(out: &mut Vec<u8>, v: u32)
    ensures
        final(out)@ == old(out)@ + be32(v as int),
{
    out.push((v / 0x100_0000 % 256) as u8);
    out.push((v / 0x1_0000 % 256) as u8);
    out.push((v / 0x100 % 256) as u8);
    out.push((v % 256) as u8);
    assert(out@ =~= old(out)@ + be32(v as int));
}

fn align(out: &mut Vec<u8>)
    ensures
        final(out)@ == aligned(old(out)@),
{
    let ghost was = out@;
    let n: usize = (4 - out.len() % 4) % 4;
    let mut i: usize = 0;
    assert(out@ =~= was + Seq::new(0, |j: int| 0u8));
    while i < n
        invariant
            i <= n,
            out@ == was + Seq::new(i as nat, |j: int| 0u8),
        decreases n - i,
    {
        out.push(0);
        i += 1;
        assert(out@ =~= was + Seq::new(i as nat, |j: int| 0u8));
    }
}

/// What a binary search of `n` tables needs.
fn sfnt_search_params(n: u16) -> (r: (u16, u16, u16))
    requires
        n > 0,
    ensures
        r.0 == power_below(n as nat) * 16 % 65536,
        r.1 == log_below(n as nat),
        r.2 == (n - power_below(n as nat)) * 16 % 65536,
{
    let mut m: u32 = n as u32;
    let mut p: u32 = 1;
    let mut es: u16 = 0;
    while m >= 2
        invariant
            1 <= m <= n,
            1 <= p,
            p * m <= n,
            es < p,
            power_below(n as nat) == p * power_below(m as nat),
            log_below(n as nat) == es + log_below(m as nat),
        decreases m,
    {
        assert(p <= p * m) by (nonlinear_arith)
            requires
                m >= 1,
                p >= 1,
        ;
        assert((2 * p) * (m / 2) <= p * m) by (nonlinear_arith)
            requires
                m >= 2,
                p >= 1,
        ;
        assert(p * (2 * power_below((m / 2) as nat)) == (2 * p) * power_below((m / 2) as nat))
            by (nonlinear_arith);
        m = m / 2;
        p = 2 * p;
        es = es + 1;
    }
    assert(p * m == p) by (nonlinear_arith)
        requires
            m == 1,
    ;
    let sr: u32 = p * 16 % 65536;
    let rs: u32 = (n as u32 - p) * 16 % 65536;
    (sr as u16, es, rs as u16)
}

fn read_table(d: &[u8], rec: u64) -> (r: Option<Table>)
    requires
        rec < 0x1_0000_0000_0000 - 100,
    ensures
        r is Some <==> table_at(d@, rec as int) is Some,
        r matches Some(t) ==> table_at(d@, rec as int) == Some(t.model()),
{
    match (read_u32(d, rec + 4), read_u32(d, rec + 8), read_u32(d, rec + 12)) {
        (Some(sum), Some(off), Some(len)) => {
            if off as u64 + len as u64 <= d.len() as u64 {
                let at: usize = rec as usize;
                let o: usize = off as usize;
                let n: usize = len as usize;
                let t = Table {
                    tag: copy_bytes(slice_subrange(d, at, at + 4)),
                    checksum: sum,
                    body: copy_bytes(slice_subrange(d, o, o + n)),
                };
                Some(t)
            } else {
                None
            }
        },
        _ => None,
    }
}

proof fn lemma_tables_missing(d: Seq<u8>, dir: int, k: nat, n: nat)
    requires
        k <= n,
        tables_at(d, dir, k) is None,
    ensures
        tables_at(d, dir, n) is None,
    decreases n - k,
{
    if k < n {
        lemma_tables_missing(d, dir, k + 1, n);
    }
}

proof fn lemma_tables_len(d: Seq<u8>, dir: int, n: nat)
    requires
        0 <= dir,
    ensures
        tables_at(d, dir, n) matches Some(t) ==> t.len() == n && forall|i: int|
            0 <= i < n ==> (#[trigger] t[i]).tag.len() == 4 && 0 <= t[i].checksum < 0x1_0000_0000
                && t[i].body.len() < 0x1_0000_0000,
    decreases n,
{
    if n > 0 {
        lemma_tables_len(d, dir, (n - 1) as nat);
        let rec = dir + 12 + (n - 1) * 16;
        lemma_table_at(d, rec);
        if let Some(t) = tables_at(d, dir, n) {
            let before = tables_at(d, dir, (n - 1) as nat)->0;
            assert(t == before.push(table_at(d, rec)->0));
            assert forall|i: int| 0 <= i < n implies (#[trigger] t[i]).tag.len() == 4 && 0
                <= t[i].checksum < 0x1_0000_0000 && t[i].body.len() < 0x1_0000_0000 by {
                if i < n - 1 {
                    assert(t[i] == before[i]);
                }
            }
        }
    }
}

proof fn lemma_table_at(d: Seq<u8>, rec: int)
    ensures
        table_at(d, rec) matches Some(t) ==> (t.tag.len() == 4 || rec < 0) && 0 <= t.checksum
            < 0x1_0000_0000 && t.body.len() < 0x1_0000_0000,
{
}

fn read_tables(d: &[u8], dir: u32, n: u16) -> (r: Option<Vec<Table>>)
    ensures
        r is Some <==> tables_at(d@, dir as int, n as nat) is Some,
        r matches Some(t) ==> tables_at(d@, dir as int, n as nat) == Some(table_views(t@)),
{
    let mut out: Vec<Table> = Vec::new();
    let mut i: u16 = 0;
    assert(table_views(out@) =~= Seq::<TableView>::empty());
    while i < n
        invariant
            i <= n,
            tables_at(d@, dir as int, i as nat) == Some(table_views(out@)),
        decreases n - i,
    {
        match read_table(d, dir as u64 + 12 + i as u64 * 16) {
            Some(t) => {
                let ghost was = table_views(out@);
                out.push(t);
                assert(table_views(out@) =~= was.push(t.model()));
                i += 1;
            },
            None => {
                proof {
                    lemma_tables_missing(d@, dir as int, (i + 1) as nat, n as nat);
                }
                return None;
            },
        }
    }
    Some(out)
}

fn write_face(version: &[u8], tables: &Vec<Table>) -> (r: Vec<u8>)
    requires
        0 < tables@.len() <= 0xffff,
        forall|i: int|
            0 <= i < tables@.len() ==> (#[trigger] table_views(tables@)[i]).body.len()
                < 0x1_0000_0000,
    ensures
        r@ == face_file(version@, table_views(tables@)),
{
    let ghost t = table_views(tables@);
    let n: usize = tables.len();
    let (sr, es, rs) = sfnt_search_params(n as u16);
    let mut out = copy_bytes(version);
    push_be16(&mut out, n as u16);
    push_be16(&mut out, sr);
    push_be16(&mut out, es);
    push_be16(&mut out, rs);
    assert(out@ =~= header(version@, t.len()));
    let mut body: Vec<u8> = Vec::new();
    let mut head: Option<u32> = None;
    let mut i: usize = 0;
    assert(t.take(0) =~= Seq::<TableView>::empty());
    assert(out@ =~= header(version@, t.len()) + records(t, 0));
    while i < n
        invariant
            i <= n,
            n == tables@.len(),
            0 < n <= 0xffff,
            t == table_views(tables@),
            forall|j: int| 0 <= j < n ==> (#[trigger] t[j]).body.len() < 0x1_0000_0000,
            out@ == header(version@, t.len()) + records(t, i as nat),
            body@ == bodies(t.take(i as int)),
            head_offset(t, i as nat) == (match head {
                Some(h) => Some(h as int),
                None => None,
            }),
        decreases n - i,
    {
        assert(t.take(i + 1).drop_last() =~= t.take(i as int));
        assert(t[i as int] == tables@[i as int].model());
        align(&mut body);
        let base: u128 = 12 + 16 * n as u128;
        let off: u128 = (base + body.len() as u128) % 0x1_0000_0000;
        assert(off == table_offset(t, i as int) % 0x1_0000_0000);
        let ghost tag = "head".spec_bytes();
        if same_bytes(tables[i].tag.as_slice(), "head".as_bytes()) {
            head = Some(off as u32);
        }
        let ghost before = out@;
        push_bytes(&mut out, tables[i].tag.as_slice());
        push_be32(&mut out, tables[i].checksum);
        push_be32(&mut out, off as u32);
        assert(t[i as int].body.len() < 0x1_0000_0000);
        push_be32(&mut out, tables[i].body.len() as u32);
        assert(out@ =~= before + record(t, i as int));
        push_bytes(&mut body, tables[i].body.as_slice());
        i += 1;
        assert(out@ =~= header(version@, t.len()) + records(t, i as nat));
    }
    assert(t.take(n as int) =~= t);
    push_bytes(&mut out, body.as_slice());
    assert(out@ =~= plain_face(version@, t));
    match head {
        Some(h) => adjust(out, h),
        None => out,
    }
}

fn adjust(out: Vec<u8>, h: u32) -> (r: Vec<u8>)
    ensures
        r@ == adjusted(out@, h as int),
{
    let end: u64 = h as u64 + 12;
    if end > out.len() as u64 {
        return out;
    }
    let at: usize = (end - 4) as usize;
    let first = slice_subrange(out.as_slice(), 0, at);
    let last = slice_subrange(out.as_slice(), at + 4, out.len());
    assert(first@ =~= out@.take(at as int));
    assert(last@ =~= out@.skip(at + 4));
    let mut zeroed = copy_bytes(first);
    push_be32(&mut zeroed, 0);
    push_bytes(&mut zeroed, last);
    assert(zeroed@ =~= spliced(out@, at as int, be32(0)));
    let sum: u32 = sfnt_checksum(zeroed.as_slice());
    let adj: u32 = MAGIC.wrapping_sub(sum);
    assert(adj == (MAGIC - sum) % 0x1_0000_0000);
    let mut r = copy_bytes(first);
    push_be32(&mut r, adj);
    push_bytes(&mut r, last);
    assert(r@ =~= adjusted(out@, h as int));
    r
}

/// The model of an extracted face.
pub open spec fn face_view(r: Option<(Vec<u8>, &'static str)>) -> Option<(Seq<u8>, Seq<char>)> {
    match r {
        Some((b, f)) => Some((b@, f@)),
        None => None,
    }
}

/// Face `index` of a font file as a file of its own, with its format.
pub fn sfnt_face(d: &[u8], index: u32) -> (r: Option<(Vec<u8>, &'static str)>)
    ensures
        face_view(r) == extracted(d@, index as int),
{
    if d.len() < 4 {
        return None;
    }
    let head = slice_subrange(d, 0, 4);
    assert(head@ =~= d@.take(4));
    let dir: u32 = if same_bytes(head, "ttcf".as_bytes()) {
        match read_u32(d, 8) {
            Some(num) => {
                if index >= num {
                    return None;
                }
                match read_u32(d, 12 + 4 * index as u64) {
                    Some(x) => x,
                    None => return None,
                }
            },
            None => return None,
        }
    } else {
        0
    };
    match read_u16(d, dir as u64 + 4) {
        Some(n) => {
            if n == 0 {
                return None;
            }
            match read_tables(d, dir, n) {
                Some(tables) => {
                    proof {
                        lemma_tables_len(d@, dir as int, n as nat);
                    }
                    let at: usize = dir as usize;
                    let version = slice_subrange(d, at, at + 4);
                    let out = write_face(version, &tables);
                    if same_bytes(version, "OTTO".as_bytes()) {
                        Some((out, "opentype"))
                    } else {
                        Some((out, "truetype"))
                    }
                },
                None => None,
            }
        },
        None => None,
    }
}

// ---- the checksum comes out right ----

proof fn lemma_be32_word(v: int)
    requires
        0 <= v < 0x1_0000_0000,
    ensures
        word(be32(v)[0], be32(v)[1], be32(v)[2], be32(v)[3]) == v,
{
}

proof fn lemma_checksum_spliced(s: Seq<u8>, at: int, v: int)
    requires
        0 <= at,
        at % 4 == 0,
        at + 4 <= s.len(),
        0 <= v < 0x1_0000_0000,
    ensures
        checksum(spliced(s, at, be32(v))) == (checksum(spliced(s, at, be32(0))) + v) % 0x1_0000_0000,
    decreases at,
{
    let a = spliced(s, at, be32(v));
    let z = spliced(s, at, be32(0));
    assert(a.len() == s.len() && z.len() == s.len());
    lemma_be32_word(v);
    lemma_be32_word(0);
    if at == 0 {
        let ra = if a.len() <= 4 {
            Seq::empty()
        } else {
            a.skip(4)
        };
        let rz = if z.len() <= 4 {
            Seq::empty()
        } else {
            z.skip(4)
        };
        assert(ra =~= rz);
        assert(a[0] == be32(v)[0] && a[1] == be32(v)[1] && a[2] == be32(v)[2] && a[3] == be32(v)[3]);
        assert(z[0] == be32(0)[0] && z[1] == be32(0)[1] && z[2] == be32(0)[2] && z[3] == be32(0)[3]);
        lemma_checksum_first(a, v, ra);
        lemma_checksum_first(z, 0, rz);
        lemma_wrap(checksum(ra), v);
    } else {
        let t = s.skip(4);
        assert(a.skip(4) =~= spliced(t, at - 4, be32(v)));
        assert(z.skip(4) =~= spliced(t, at - 4, be32(0)));
        lemma_checksum_spliced(t, at - 4, v);
        let w = word(s[0], s[1], s[2], s[3]);
        assert(a[0] == s[0] && a[1] == s[1] && a[2] == s[2] && a[3] == s[3]);
        assert(z[0] == s[0] && z[1] == s[1] && z[2] == s[2] && z[3] == s[3]);
        let cz = checksum(z.skip(4));
        lemma_checksum_first(a, w, a.skip(4));
        lemma_checksum_first(z, w, z.skip(4));
        lemma_wrap(w, cz + v);
        lemma_wrap(w + cz, v);
    }
}

/// The sum over an adjusted file is [`MAGIC`].
pub proof fn law_adjusted_sum(out: Seq<u8>, h: int)
    requires
        0 <= h,
        h % 4 == 0,
        h + 12 <= out.len(),
    ensures
        checksum(adjusted(out, h)) == MAGIC,
{
    let z = spliced(out, h + 8, be32(0));
    lemma_checksum_range(z);
    let adj = (MAGIC - checksum(z)) % 0x1_0000_0000;
    lemma_checksum_spliced(out, h + 8, adj);
}

proof fn lemma_table_offset_aligned(t: Seq<TableView>, k: int)
    ensures
        table_offset(t, k) % 4 == 0,
        table_offset(t, k) >= 0,
{
    let s = bodies(t.take(k));
    assert((s.len() + (4 - s.len() % 4) % 4) % 4 == 0);
}

proof fn lemma_bodies_grow(t: Seq<TableView>, k: int)
    requires
        0 <= k <= t.len(),
    ensures
        bodies(t.take(k)).len() <= bodies(t).len(),
    decreases t.len() - k,
{
    if k < t.len() {
        assert(t.take(k + 1).drop_last() =~= t.take(k));
        lemma_bodies_grow(t, k + 1);
    } else {
        assert(t.take(k) =~= t);
    }
}

proof fn lemma_records_len(t: Seq<TableView>, n: nat)
    requires
        n <= t.len(),
        forall|i: int| 0 <= i < t.len() ==> (#[trigger] t[i]).tag.len() == 4,
    ensures
        records(t, n).len() == 16 * n,
    decreases n,
{
    if n > 0 {
        lemma_records_len(t, (n - 1) as nat);
        assert(t[n - 1].tag.len() == 4);
    }
}

proof fn lemma_head(t: Seq<TableView>, n: nat)
    requires
        n <= t.len(),
    ensures
        head_offset(t, n) matches Some(h) ==> exists|k: int|
            0 <= k < n && #[trigger] t[k].tag == "head".spec_bytes() && h == table_offset(t, k)
                % 0x1_0000_0000,
    decreases n,
{
    if n > 0 {
        if t[n - 1].tag == "head".spec_bytes() {
            assert(t[n - 1].tag == "head".spec_bytes());
        } else {
            lemma_head(t, (n - 1) as nat);
        }
    }
}

/// Every face that is written with a `head` table, of at least twelve bytes and within the
/// offsets that four bytes hold, sums to [`MAGIC`].
#[verifier::rlimit(40)]
pub proof fn law_face_sums_to_magic(version: Seq<u8>, t: Seq<TableView>)
    requires
        version.len() == 4,
        forall|i: int| 0 <= i < t.len() ==> (#[trigger] t[i]).tag.len() == 4,
        exists|i: int| 0 <= i < t.len() && #[trigger] t[i].tag == "head".spec_bytes(),
        forall|i: int|
            0 <= i < t.len() && #[trigger] t[i].tag == "head".spec_bytes() ==> t[i].body.len() >= 12,
        plain_face(version, t).len() <= 0x1_0000_0000,
    ensures
        checksum(face_file(version, t)) == MAGIC,
{
    lemma_head_some(t, t.len());
    lemma_head(t, t.len());
    let h = head_offset(t, t.len())->0;
    let k = choose|k: int|
        0 <= k < t.len() && #[trigger] t[k].tag == "head".spec_bytes() && h == table_offset(t, k)
            % 0x1_0000_0000;
    lemma_table_offset_aligned(t, k);
    lemma_table_inside(version, t, k);
    assert(t[k].body.len() >= 12);
    assert(h == table_offset(t, k));
    law_adjusted_sum(plain_face(version, t), h);
}

proof fn lemma_table_inside(version: Seq<u8>, t: Seq<TableView>, k: int)
    requires
        version.len() == 4,
        forall|i: int| 0 <= i < t.len() ==> (#[trigger] t[i]).tag.len() == 4,
        0 <= k < t.len(),
    ensures
        table_offset(t, k) + t[k].body.len() <= plain_face(version, t).len(),
{
    lemma_records_len(t, t.len());
    lemma_bodies_grow(t, k + 1);
    assert(t.take(k + 1).drop_last() =~= t.take(k));
    assert(t.take(k + 1).last() == t[k]);
    assert(header(version, t.len()).len() == 12);
}

proof fn lemma_head_some(t: Seq<TableView>, n: nat)
    requires
        n <= t.len(),
        exists|i: int| 0 <= i < n && #[trigger] t[i].tag == "head".spec_bytes(),
    ensures
        head_offset(t, n) is Some,
    decreases n,
{
    if t[n - 1].tag != "head".spec_bytes() {
        let i = choose|i: int| 0 <= i < n && #[trigger] t[i].tag == "head".spec_bytes();
        assert(i < n - 1);
        lemma_head_some(t, (n - 1) as nat);
    }
}

// ---- font files ----

/// The MIME type of a font format.
pub open spec fn mime_of(format: Seq<char>) -> Seq<char> {
    if format == "opentype"@ {
        "font/otf"@
    } else if format == "woff"@ {
        "font/woff"@
    } else if format == "woff2"@ {
        "font/woff2"@
    } else {
        "font/ttf"@
    }
}

/// The MIME type of a font format.
pub fn mime_for(format: &str) -> (r: &'static str)
    ensures
        r@ == mime_of(format@),
{
    if same_text(format, "opentype") {
        "font/otf"
    } else if same_text(format, "woff") {
        "font/woff"
    } else if same_text(format, "woff2") {
        "font/woff2"
    } else {
        "font/ttf"
    }
}

/// A font file that is served.
pub struct FontFile {
    /// The family that the page refers to it by.
    pub family: String,
    pub mime: &'static str,
    pub format: &'static str,
    pub bytes: Vec<u8>,
    pub bold: bool,
}

/// A font file as a single web font: WOFF files as they are, else the first face. The bytes,
/// the MIME type and the format; `None` where the file is not well-formed.
pub open spec fn as_web_font(raw: Seq<u8>) -> Option<(Seq<u8>, Seq<char>, Seq<char>)> {
    if begins(raw, "wOFF".spec_bytes()) {
        Some((raw, "font/woff"@, "woff"@))
    } else if begins(raw, "wOF2".spec_bytes()) {
        Some((raw, "font/woff2"@, "woff2"@))
    } else {
        match extracted(raw, 0) {
            Some((b, f)) => Some((b, mime_of(f), f)),
            None => None,
        }
    }
}

/// A font file as a single web font of a family.
pub fn load_font(family: &str, raw: Vec<u8>) -> (r: Option<FontFile>)
    ensures
        r is Some <==> as_web_font(raw@) is Some,
        r matches Some(f) ==> as_web_font(raw@) == Some((f.bytes@, f.mime@, f.format@)) && f.family@
            == family@ && !f.bold,
{
    if starts_with(raw.as_slice(), "wOFF".as_bytes()) {
        Some(
            FontFile {
                family: String::from_str(family),
                mime: "font/woff",
                format: "woff",
                bytes: raw,
                bold: false,
            },
        )
    } else if starts_with(raw.as_slice(), "wOF2".as_bytes()) {
        Some(
            FontFile {
                family: String::from_str(family),
                mime: "font/woff2",
                format: "woff2",
                bytes: raw,
                bold: false,
            },
        )
    } else {
        match sfnt_face(raw.as_slice(), 0) {
            Some((bytes, format)) => Some(
                FontFile {
                    family: String::from_str(family),
                    mime: mime_for(format),
                    format,
                    bytes,
                    bold: false,
                },
            ),
            None => None,
        }
    }
}

/// The MIME types and base64 texts of uploaded fonts.
pub open spec fn asset_views(s: Seq<FontAsset>) -> Seq<(Seq<char>, Seq<char>)> {
    Seq::new(s.len(), |i: int| (s[i].mime@, s[i].b64@))
}

/// The MIME types and base64 texts of font files.
pub open spec fn uploads(s: Seq<FontFile>) -> Seq<(Seq<char>, Seq<char>)> {
    Seq::new(s.len(), |i: int| (s[i].mime@, standard_b64_text(s[i].bytes@)))
}

/// The fonts to upload, in order.
pub fn font_assets(fonts: &Vec<FontFile>) -> (r: Vec<FontAsset>)
    requires
        forall|i: int| 0 <= i < fonts@.len() ==> (#[trigger] fonts@[i]).bytes@.len() <= usize::MAX / 4,
    ensures
        asset_views(r@) == uploads(fonts@),
{
    let mut out: Vec<FontAsset> = Vec::new();
    let mut i: usize = 0;
    while i < fonts.len()
        invariant
            i <= fonts@.len(),
            forall|j: int|
                0 <= j < fonts@.len() ==> (#[trigger] fonts@[j]).bytes@.len() <= usize::MAX / 4,
            asset_views(out@) == uploads(fonts@).take(i as int),
        decreases fonts@.len() - i,
    {
        let ghost was = asset_views(out@);
        let ghost f = fonts@[i as int];
        assert(f.bytes@.len() <= usize::MAX / 4);
        let a = FontAsset {
            mime: String::from_str(fonts[i].mime),
            b64: standard_encode(fonts[i].bytes.as_slice()),
        };
        out.push(a);
        i += 1;
        assert(asset_views(out@) =~= was.push((a.mime@, a.b64@)));
        assert(asset_views(out@) =~= uploads(fonts@).take(i as int));
    }
    assert(uploads(fonts@).take(i as int) =~= uploads(fonts@));
    out
}

} // verus!
