//! Fonts: which characters take another family, which families a page refers to, and font
//! files as single web fonts.
use crate::config::{texts, Config};
use crate::proto::str_views;
use crate::text::{
    chars_of, find_char, index_of, parse_unsigned_hex, same_text, split_once, string_of, trim,
    trimmed, unsigned_hex,
};
use crate::registry::{debug_quoted, debug_text};
use vstd::prelude::*;
use vstd::slice::slice_subrange;
use vstd::string::*;

verus! {

// ---- which characters take another family ----

/// A character by its number, as `U+E0A0`, `u+e0a0`, `0xE0A0` or `E0A0`.
pub open spec fn codepoint(s: Seq<char>) -> Option<nat> {
    let t = trim(s);
    let prefixed = t.len() >= 2 && ((t[0] == 'U' && t[1] == '+') || (t[0] == 'u' && t[1] == '+') || (
    t[0] == '0' && t[1] == 'x'));
    unsigned_hex(
        if prefixed {
            t.skip(2)
        } else {
            t
        },
        u32::MAX as nat,
    )
}

/// A range of characters: two numbers with a dash between them, not the larger one first, or
/// one number.
pub open spec fn range_of(s: Seq<char>) -> Option<(nat, nat)> {
    match split_once(s, '-') {
        Some((a, b)) => match (codepoint(a), codepoint(b)) {
            (Some(lo), Some(hi)) => if lo <= hi {
                Some((lo, hi))
            } else {
                None
            },
            _ => None,
        },
        None => match codepoint(s) {
            Some(v) => Some((v, v)),
            None => None,
        },
    }
}

fn parse_codepoint(s: &[char]) -> (r: Option<u32>)
    ensures
        r is Some <==> codepoint(s@) is Some,
        r matches Some(v) ==> codepoint(s@) == Some(v as nat),
{
    let t = trimmed(s);
    if t.len() >= 2 && ((t[0] == 'U' && t[1] == '+') || (t[0] == 'u' && t[1] == '+') || (t[0] == '0'
        && t[1] == 'x')) {
        let h = slice_subrange(t, 2, t.len());
        assert(h@ =~= t@.skip(2));
        parse_unsigned_hex(h, u32::MAX)
    } else {
        parse_unsigned_hex(t, u32::MAX)
    }
}

/// Read a range of characters.
pub fn parse_range(s: &str) -> (r: Option<(u32, u32)>)
    ensures
        r is Some <==> range_of(s@) is Some,
        r matches Some((lo, hi)) ==> range_of(s@) == Some((lo as nat, hi as nat)),
{
    let cs = chars_of(s);
    let k = find_char(cs.as_slice(), '-');
    if k < cs.len() {
        let a = slice_subrange(cs.as_slice(), 0, k);
        let b = slice_subrange(cs.as_slice(), k + 1, cs.len());
        assert(a@ =~= cs@.take(k as int));
        assert(b@ =~= cs@.skip(k + 1));
        match (parse_codepoint(a), parse_codepoint(b)) {
            (Some(lo), Some(hi)) => if lo <= hi {
                Some((lo, hi))
            } else {
                None
            },
            _ => None,
        }
    } else {
        match parse_codepoint(cs.as_slice()) {
            Some(v) => Some((v, v)),
            None => None,
        }
    }
}

/// Which characters take another family.
pub struct Resolver {
    entries: Vec<(u32, u32, String)>,
}

/// A range of characters and its family.
pub ghost struct Override {
    pub lo: nat,
    pub hi: nat,
    pub family: Seq<char>,
}

spec fn entry_views(s: Seq<(u32, u32, String)>) -> Seq<Override> {
    Seq::new(s.len(), |i: int| Override { lo: s[i].0 as nat, hi: s[i].1 as nat, family: s[i].2@ })
}

impl View for Resolver {
    type V = Seq<Override>;

    closed spec fn view(&self) -> Seq<Override> {
        entry_views(self.entries@)
    }
}

/// The model of a configured override: its ranges and its family.
pub ghost struct SymbolView {
    pub ranges: Seq<Seq<char>>,
    pub font: Seq<char>,
}

/// The models of configured overrides.
pub open spec fn symbol_views(s: Seq<crate::config::SymbolMap>) -> Seq<SymbolView> {
    Seq::new(s.len(), |i: int| SymbolView { ranges: texts(s[i].ranges@), font: s[i].font@ })
}

/// The overrides of one configured entry; `None` where a range cannot be read.
pub open spec fn ranges_read(ranges: Seq<Seq<char>>, font: Seq<char>) -> Option<Seq<Override>>
    decreases ranges.len(),
{
    if ranges.len() == 0 {
        Some(Seq::empty())
    } else {
        match (ranges_read(ranges.drop_last(), font), range_of(ranges.last())) {
            (Some(before), Some((lo, hi))) => Some(before.push(Override { lo, hi, family: font })),
            _ => None,
        }
    }
}

/// All configured overrides, in order; `None` where a range cannot be read.
pub open spec fn overrides(symbols: Seq<SymbolView>) -> Option<Seq<Override>>
    decreases symbols.len(),
{
    if symbols.len() == 0 {
        Some(Seq::empty())
    } else {
        match (
            overrides(symbols.drop_last()),
            ranges_read(symbols.last().ranges, symbols.last().font),
        ) {
            (Some(a), Some(b)) => Some(a + b),
            _ => None,
        }
    }
}

/// The first of some ranges that cannot be read.
pub open spec fn bad_range(ranges: Seq<Seq<char>>) -> Option<Seq<char>>
    decreases ranges.len(),
{
    if ranges.len() == 0 {
        None
    } else {
        match bad_range(ranges.drop_last()) {
            Some(b) => Some(b),
            None => if range_of(ranges.last()) is None {
                Some(ranges.last())
            } else {
                None
            },
        }
    }
}

/// The first configured range that cannot be read.
pub open spec fn first_bad(symbols: Seq<SymbolView>) -> Option<Seq<char>>
    decreases symbols.len(),
{
    if symbols.len() == 0 {
        None
    } else {
        match first_bad(symbols.drop_last()) {
            Some(b) => Some(b),
            None => bad_range(symbols.last().ranges),
        }
    }
}

/// The family of the first range that holds a character.
pub open spec fn family_for(entries: Seq<Override>, cp: nat) -> Option<Seq<char>>
    decreases entries.len(),
{
    if entries.len() == 0 {
        None
    } else if entries[0].lo <= cp <= entries[0].hi {
        Some(entries[0].family)
    } else {
        family_for(entries.drop_first(), cp)
    }
}

/// A range that cannot be read.
#[derive(Debug)]
pub struct BadRange {
    pub range: String,
}

impl BadRange {
    /// What is wrong.
    pub fn text(&self) -> (r: String)
        ensures
            r@ == "invalid symbol_map range "@ + debug_text(self.range@),
    {
        let mut r = String::from_str("invalid symbol_map range ");
        r.append(debug_quoted(self.range.as_str()).as_str());
        r
    }
}

proof fn lemma_ranges_bad(ranges: Seq<Seq<char>>, font: Seq<char>, k: int)
    requires
        0 <= k <= ranges.len(),
        ranges_read(ranges.take(k), font) is None,
        bad_range(ranges.take(k)) is Some,
    ensures
        ranges_read(ranges, font) is None,
        bad_range(ranges) == bad_range(ranges.take(k)),
    decreases ranges.len() - k,
{
    if k < ranges.len() {
        assert(ranges.take(k + 1).drop_last() =~= ranges.take(k));
        lemma_ranges_bad(ranges, font, k + 1);
    } else {
        assert(ranges.take(k) =~= ranges);
    }
}

proof fn lemma_overrides_bad(s: Seq<SymbolView>, k: int)
    requires
        0 <= k <= s.len(),
        overrides(s.take(k)) is None,
        first_bad(s.take(k)) is Some,
    ensures
        overrides(s) is None,
        first_bad(s) == first_bad(s.take(k)),
    decreases s.len() - k,
{
    if k < s.len() {
        assert(s.take(k + 1).drop_last() =~= s.take(k));
        lemma_overrides_bad(s, k + 1);
    } else {
        assert(s.take(k) =~= s);
    }
}

impl Resolver {
    /// Read the configured overrides. The error names the first range that cannot be read.
    pub fn build(config: &Config) -> (r: Result<Resolver, BadRange>)
        ensures
            r is Ok <==> overrides(symbol_views(config.symbol_map@)) is Some,
            r matches Ok(x) ==> overrides(symbol_views(config.symbol_map@)) == Some(x@),
            r matches Err(e) ==> first_bad(symbol_views(config.symbol_map@)) == Some(e.range@),
    {
        let ghost all = symbol_views(config.symbol_map@);
        let mut entries: Vec<(u32, u32, String)> = Vec::new();
        let mut i: usize = 0;
        assert(all.take(0) =~= Seq::<SymbolView>::empty());
        assert(entry_views(entries@) =~= Seq::<Override>::empty());
        while i < config.symbol_map.len()
            invariant
                i <= config.symbol_map@.len(),
                all == symbol_views(config.symbol_map@),
                overrides(all.take(i as int)) == Some(entry_views(entries@)),
                first_bad(all.take(i as int)) is None,
            decreases config.symbol_map@.len() - i,
        {
            let sm = &config.symbol_map[i];
            let ghost ranges = texts(sm.ranges@);
            let ghost before = entry_views(entries@);
            let mut k: usize = 0;
            assert(ranges.take(0) =~= Seq::<Seq<char>>::empty());
            assert(entry_views(entries@) =~= before + Seq::<Override>::empty());
            while k < sm.ranges.len()
                invariant
                    k <= sm.ranges@.len(),
                    i < config.symbol_map@.len(),
                    all == symbol_views(config.symbol_map@),
                    *sm == config.symbol_map@[i as int],
                    ranges == texts(sm.ranges@),
                    overrides(all.take(i as int)) == Some(before),
                    first_bad(all.take(i as int)) is None,
                    bad_range(ranges.take(k as int)) is None,
                    ranges_read(ranges.take(k as int), sm.font@) is Some,
                    entry_views(entries@) == before + ranges_read(ranges.take(k as int), sm.font@)->0,
                decreases sm.ranges@.len() - k,
            {
                assert(ranges.take(k + 1).drop_last() =~= ranges.take(k as int));
                assert(ranges.take(k + 1).last() == sm.ranges@[k as int]@);
                match parse_range(sm.ranges[k].as_str()) {
                    Some((lo, hi)) => {
                        let ghost was = entry_views(entries@);
                        entries.push((lo, hi, sm.font.clone()));
                        assert(entry_views(entries@) =~= was.push(
                            Override { lo: lo as nat, hi: hi as nat, family: sm.font@ },
                        ));
                        k += 1;
                        assert(entry_views(entries@) =~= before + ranges_read(
                            ranges.take(k as int),
                            sm.font@,
                        )->0);
                    },
                    None => {
                        proof {
                            lemma_ranges_bad(ranges, sm.font@, k + 1);
                            assert(all.take(i + 1).drop_last() =~= all.take(i as int));
                            assert(all.take(i + 1).last() == all[i as int]);
                            lemma_overrides_bad(all, i + 1);
                        }
                        return Err(BadRange { range: sm.ranges[k].clone() });
                    },
                }
            }
            proof {
                assert(ranges.take(k as int) =~= ranges);
                assert(all.take(i + 1).drop_last() =~= all.take(i as int));
                assert(all.take(i + 1).last() == all[i as int]);
            }
            i += 1;
        }
        assert(all.take(i as int) =~= all);
        Ok(Resolver { entries })
    }

    /// The family that a character takes, where it is not the default.
    pub fn font_for(&self, ch: char) -> (r: Option<&str>)
        ensures
            r is Some <==> family_for(self@, ch as nat) is Some,
            r matches Some(f) ==> family_for(self@, ch as nat) == Some(f@),
    {
        let cp: u32 = ch as u32;
        let mut i: usize = 0;
        assert(self@.skip(0) =~= self@);
        while i < self.entries.len()
            invariant
                i <= self.entries@.len(),
                cp == ch as u32,
                family_for(self@, ch as nat) == family_for(self@.skip(i as int), ch as nat),
            decreases self.entries@.len() - i,
        {
            let ghost rest = self@.skip(i as int);
            assert(rest[0] == self@[i as int]);
            assert(rest.drop_first() =~= self@.skip(i + 1));
            if self.entries[i].0 <= cp && cp <= self.entries[i].1 {
                return Some(self.entries[i].2.as_str());
            }
            i += 1;
        }
        None
    }

    /// How many overrides there are.
    pub fn len(&self) -> (r: usize)
        ensures
            r == self@.len(),
    {
        self.entries.len()
    }

    /// The `i`-th override: first and last character, and family.
    pub fn entry(&self, i: usize) -> (r: (u32, u32, &str))
        requires
            i < self@.len(),
        ensures
            self@[i as int] == (Override { lo: r.0 as nat, hi: r.1 as nat, family: r.2@ }),
    {
        (self.entries[i].0, self.entries[i].1, self.entries[i].2.as_str())
    }
}

// ---- which families a page refers to ----

/// Whether a family is one of CSS's generic ones.
pub open spec fn is_generic(f: Seq<char>) -> bool {
    f == "monospace"@ || f == "serif"@ || f == "sans-serif"@ || f == "cursive"@ || f == "fantasy"@
}

/// Whether a family is one of CSS's generic ones.
pub fn generic(f: &str) -> (r: bool)
    ensures
        r == is_generic(f@),
{
    same_text(f, "monospace") || same_text(f, "serif") || same_text(f, "sans-serif") || same_text(
        f,
        "cursive",
    ) || same_text(f, "fantasy")
}

/// Families without the generic ones, each where it first stands.
pub open spec fn distinct_families(s: Seq<Seq<char>>) -> Seq<Seq<char>>
    decreases s.len(),
{
    if s.len() == 0 {
        Seq::empty()
    } else {
        let before = distinct_families(s.drop_last());
        if is_generic(s.last()) || before.contains(s.last()) {
            before
        } else {
            before.push(s.last())
        }
    }
}

/// Every family that a configuration names, in order.
pub open spec fn named_families(default_font: Seq<Seq<char>>, symbols: Seq<SymbolView>) -> Seq<
    Seq<char>,
> {
    default_font + Seq::new(symbols.len(), |i: int| symbols[i].font)
}

fn has_text(v: &Vec<String>, t: &str) -> (r: bool)
    ensures
        r == texts(v@).contains(t@),
{
    let mut i: usize = 0;
    while i < v.len()
        invariant
            i <= v@.len(),
            forall|j: int| 0 <= j < i ==> #[trigger] texts(v@)[j] != t@,
        decreases v@.len() - i,
    {
        if same_text(v[i].as_str(), t) {
            assert(texts(v@)[i as int] == t@);
            return true;
        }
        i += 1;
    }
    false
}

fn add_family(out: &mut Vec<String>, f: &String)
    ensures
        texts(final(out)@) == (if is_generic(f@) || texts(old(out)@).contains(f@) {
            texts(old(out)@)
        } else {
            texts(old(out)@).push(f@)
        }),
{
    if !generic(f.as_str()) && !has_text(out, f.as_str()) {
        let ghost was = texts(out@);
        out.push(f.clone());
        assert(texts(out@) =~= was.push(f@));
    }
}

/// The families that a configuration refers to and that need a font file.
pub fn referenced_families(config: &Config) -> (r: Vec<String>)
    ensures
        texts(r@) == distinct_families(
            named_families(texts(config.default_font@), symbol_views(config.symbol_map@)),
        ),
{
    let ghost d = texts(config.default_font@);
    let ghost all = named_families(d, symbol_views(config.symbol_map@));
    let n: usize = config.default_font.len();
    let mut out: Vec<String> = Vec::new();
    let mut i: usize = 0;
    assert(all.take(0) =~= Seq::<Seq<char>>::empty());
    assert(texts(out@) =~= distinct_families(all.take(0)));
    while i < n
        invariant
            i <= n,
            n == config.default_font@.len(),
            all == named_families(
                texts(config.default_font@),
                symbol_views(config.symbol_map@),
            ),
            texts(out@) == distinct_families(all.take(i as int)),
        decreases n - i,
    {
        assert(all.take(i + 1).drop_last() =~= all.take(i as int));
        assert(all.take(i + 1).last() == config.default_font@[i as int]@);
        add_family(&mut out, &config.default_font[i]);
        i += 1;
    }
    let mut k: usize = 0;
    while k < config.symbol_map.len()
        invariant
            k <= config.symbol_map@.len(),
            n == config.default_font@.len(),
            all == named_families(
                texts(config.default_font@),
                symbol_views(config.symbol_map@),
            ),
            texts(out@) == distinct_families(all.take(n + k)),
        decreases config.symbol_map@.len() - k,
    {
        assert(all.take(n + k + 1).drop_last() =~= all.take(n + k));
        assert(all.take(n + k + 1).last() == config.symbol_map@[k as int].font@);
        add_family(&mut out, &config.symbol_map[k].font);
        k += 1;
    }
    assert(all.take(n + k) =~= all);
    out
}

/// Where a family's font is to be had: from a file, or under a name.
pub enum FontPlan {
    File(String),
    Lookup(String),
}

/// The model of [`FontPlan`].
pub ghost enum PlanView {
    File(Seq<char>),
    Lookup(Seq<char>),
}

impl View for FontPlan {
    type V = PlanView;

    open spec fn view(&self) -> PlanView {
        match self {
            FontPlan::File(p) => PlanView::File(p@),
            FontPlan::Lookup(n) => PlanView::Lookup(n@),
        }
    }
}

/// Where a family's font is to be had, given its configured source: the file, else the other
/// name, else the family itself.
pub open spec fn plan_for(
    fonts: Seq<(String, crate::config::FontSource)>,
    family: Seq<char>,
) -> PlanView
    decreases fonts.len(),
{
    if fonts.len() == 0 {
        PlanView::Lookup(family)
    } else if fonts[0].0@ == family {
        match fonts[0].1.path {
            Some(p) => PlanView::File(p@),
            None => match fonts[0].1.system {
                Some(s) => PlanView::Lookup(s@),
                None => PlanView::Lookup(family),
            },
        }
    } else {
        plan_for(fonts.drop_first(), family)
    }
}

/// Where a family's font is to be had.
pub fn font_plan(config: &Config, family: &str) -> (r: FontPlan)
    ensures
        r@ == plan_for(config.fonts@, family@),
{
    let mut i: usize = 0;
    let ghost all = config.fonts@;
    assert(all.skip(0) =~= all);
    while i < config.fonts.len()
        invariant
            i <= config.fonts@.len(),
            all == config.fonts@,
            plan_for(all, family@) == plan_for(all.skip(i as int), family@),
        decreases config.fonts@.len() - i,
    {
        assert(all.skip(i as int)[0] == all[i as int]);
        assert(all.skip(i as int).drop_first() =~= all.skip(i + 1));
        if same_text(config.fonts[i].0.as_str(), family) {
            return match &config.fonts[i].1.path {
                Some(p) => FontPlan::File(p.clone()),
                None => match &config.fonts[i].1.system {
                    Some(s) => FontPlan::Lookup(s.clone()),
                    None => FontPlan::Lookup(String::from_str(family)),
                },
            };
        }
        i += 1;
    }
    FontPlan::Lookup(String::from_str(family))
}

// ---- generic families ----

/// A letter in lower case; anything else as it is.
pub open spec fn ascii_lower(c: char) -> char {
    if 'A' <= c && c <= 'Z' {
        (c as u32 + 32) as char
    } else {
        c
    }
}

/// Whether two names are the same but for the case of ASCII letters.
pub open spec fn same_name(a: Seq<char>, b: Seq<char>) -> bool {
    a.len() == b.len() && forall|i: int|
        0 <= i < a.len() ==> ascii_lower(#[trigger] a[i]) == ascii_lower(b[i])
}

fn lower(c: char) -> (r: u32)
    ensures
        r == ascii_lower(c) as u32,
{
    let u: u32 = c as u32;
    if 'A' <= c && c <= 'Z' {
        u + 32
    } else {
        u
    }
}

/// Whether two names are the same but for the case of ASCII letters.
pub fn names_match(a: &str, b: &str) -> (r: bool)
    ensures
        r == same_name(a@, b@),
{
    let x = chars_of(a);
    let y = chars_of(b);
    if x.len() != y.len() {
        return false;
    }
    let mut i: usize = 0;
    while i < x.len()
        invariant
            x@ == a@,
            y@ == b@,
            x@.len() == y@.len(),
            i <= x@.len(),
            forall|j: int| 0 <= j < i ==> ascii_lower(#[trigger] x@[j]) == ascii_lower(y@[j]),
        decreases x@.len() - i,
    {
        if lower(x[i]) != lower(y[i]) {
            assert(ascii_lower(a@[i as int]) != ascii_lower(b@[i as int]));
            return false;
        }
        i += 1;
    }
    true
}

/// Whether a family is among the installed ones.
pub open spec fn is_installed(installed: Seq<Seq<char>>, name: Seq<char>) -> bool {
    exists|i: int| 0 <= i < installed.len() && same_name(#[trigger] installed[i], name)
}

/// Whether a family is among the installed ones.
pub fn family_installed(installed: &Vec<String>, name: &str) -> (r: bool)
    ensures
        r == is_installed(texts(installed@), name@),
{
    let ghost all = texts(installed@);
    let mut i: usize = 0;
    while i < installed.len()
        invariant
            i <= installed@.len(),
            all == texts(installed@),
            forall|j: int| 0 <= j < i ==> !same_name(#[trigger] all[j], name@),
        decreases installed@.len() - i,
    {
        if names_match(installed[i].as_str(), name) {
            assert(same_name(all[i as int], name@));
            return true;
        }
        i += 1;
    }
    false
}

/// The families that may stand for a generic one, best first.
pub open spec fn candidates_for(generic: Seq<char>) -> Seq<Seq<char>> {
    if generic == "monospace"@ {
        seq![
            "Menlo"@,
            "DejaVu Sans Mono"@,
            "Noto Sans Mono"@,
            "Liberation Mono"@,
            "Consolas"@,
            "Cascadia Mono"@,
            "Courier New"@,
        ]
    } else if generic == "serif"@ {
        seq![
            "Times New Roman"@,
            "Times"@,
            "DejaVu Serif"@,
            "Noto Serif"@,
            "Liberation Serif"@,
        ]
    } else if generic == "sans-serif"@ {
        seq!["Helvetica"@, "Arial"@, "DejaVu Sans"@, "Noto Sans"@, "Liberation Sans"@]
    } else if generic == "cursive"@ {
        seq!["Apple Chancery"@, "Comic Sans MS"@]
    } else if generic == "fantasy"@ {
        seq!["Papyrus"@, "Impact"@]
    } else {
        Seq::empty()
    }
}

fn candidates(generic: &str) -> (r: Vec<&'static str>)
    ensures
        str_views(r@) == candidates_for(generic@),
{
    let r: Vec<&'static str> = if same_text(generic, "monospace") {
        vec![
            "Menlo",
            "DejaVu Sans Mono",
            "Noto Sans Mono",
            "Liberation Mono",
            "Consolas",
            "Cascadia Mono",
            "Courier New",
        ]
    } else if same_text(generic, "serif") {
        vec!["Times New Roman", "Times", "DejaVu Serif", "Noto Serif", "Liberation Serif"]
    } else if same_text(generic, "sans-serif") {
        vec!["Helvetica", "Arial", "DejaVu Sans", "Noto Sans", "Liberation Sans"]
    } else if same_text(generic, "cursive") {
        vec!["Apple Chancery", "Comic Sans MS"]
    } else if same_text(generic, "fantasy") {
        vec!["Papyrus", "Impact"]
    } else {
        Vec::new()
    };
    assert(str_views(r@) =~= candidates_for(generic@));
    r
}

/// The first of some names that is installed.
pub open spec fn first_installed(names: Seq<Seq<char>>, installed: Seq<Seq<char>>) -> Option<
    Seq<char>,
>
    decreases names.len(),
{
    if names.len() == 0 {
        None
    } else if is_installed(installed, names[0]) {
        Some(names[0])
    } else {
        first_installed(names.drop_first(), installed)
    }
}

/// The installed family behind a generic one: the system's own choice, else the first
/// candidate that is installed.
pub open spec fn concrete_for(
    generic: Seq<char>,
    system: Option<Seq<char>>,
    installed: Seq<Seq<char>>,
) -> Option<Seq<char>> {
    if system matches Some(f) && is_installed(installed, f) {
        system
    } else {
        first_installed(candidates_for(generic), installed)
    }
}

/// The text of an optional string.
pub open spec fn opt_text(s: Option<String>) -> Option<Seq<char>> {
    match s {
        Some(t) => Some(t@),
        None => None,
    }
}

/// The installed family behind a generic one, given the system's own choice.
pub fn concrete_generic(generic: &str, system: Option<String>, installed: &Vec<String>) -> (r: Option<
    String,
>)
    ensures
        opt_text(r) == concrete_for(generic@, opt_text(system), texts(installed@)),
{
    if let Some(f) = system {
        if family_installed(installed, f.as_str()) {
            return Some(f);
        }
    }
    let names = candidates(generic);
    let ghost all = str_views(names@);
    let mut i: usize = 0;
    assert(all.skip(0) =~= all);
    while i < names.len()
        invariant
            i <= names@.len(),
            all == str_views(names@),
            first_installed(all, texts(installed@)) == first_installed(
                all.skip(i as int),
                texts(installed@),
            ),
            all == candidates_for(generic@),
            concrete_for(generic@, opt_text(system), texts(installed@)) == first_installed(
                all,
                texts(installed@),
            ),
        decreases names@.len() - i,
    {
        assert(all.skip(i as int)[0] == names@[i as int]@);
        assert(all.skip(i as int).drop_first() =~= all.skip(i + 1));
        if family_installed(installed, names[i]) {
            return Some(String::from_str(names[i]));
        }
        i += 1;
    }
    None
}

/// The family that the system names first in an answer, which may list aliases.
pub open spec fn first_alias(answer: Seq<char>) -> Option<Seq<char>> {
    let t = trim(answer.take(index_of(answer, ',')));
    if t.len() > 0 {
        Some(t)
    } else {
        None
    }
}

/// The family that the system names first in an answer.
pub fn first_family(answer: &str) -> (r: Option<String>)
    ensures
        opt_text(r) == first_alias(answer@),
{
    let cs = chars_of(answer);
    let k = find_char(cs.as_slice(), ',');
    let head = slice_subrange(cs.as_slice(), 0, k);
    assert(head@ =~= cs@.take(k as int));
    let t = trimmed(head);
    if t.len() > 0 {
        Some(string_of(t))
    } else {
        None
    }
}

/// A family with a generic one replaced, where one was found for it.
pub open spec fn resolved(
    f: Seq<char>,
    generics: Seq<Seq<char>>,
    concrete: Seq<Option<Seq<char>>>,
) -> Seq<char>
    decreases generics.len(),
{
    if generics.len() == 0 || concrete.len() == 0 {
        f
    } else if generics[0] == f {
        match concrete[0] {
            Some(c) => c,
            None => f,
        }
    } else {
        resolved(f, generics.drop_first(), concrete.drop_first())
    }
}

/// Put the family found for each generic one in its place. Other families are left alone.
pub fn resolve_generics(config: &mut Config, found: &Vec<(String, Option<String>)>)
    ensures
        final(config).symbol_map == old(config).symbol_map,
        final(config).fonts == old(config).fonts,
        final(config).template == old(config).template,
        final(config).default_font@.len() == old(config).default_font@.len(),
        forall|i: int|
            0 <= i < old(config).default_font@.len() ==> #[trigger] texts(
                final(config).default_font@,
            )[i] == (if is_generic(texts(old(config).default_font@)[i]) {
                resolved(
                    texts(old(config).default_font@)[i],
                    Seq::new(found@.len(), |k: int| found@[k].0@),
                    Seq::new(found@.len(), |k: int| opt_text(found@[k].1)),
                )
            } else {
                texts(old(config).default_font@)[i]
            }),
{
    let ghost names = Seq::new(found@.len(), |k: int| found@[k].0@);
    let ghost values = Seq::new(found@.len(), |k: int| opt_text(found@[k].1));
    let ghost was = texts(config.default_font@);
    let mut i: usize = 0;
    while i < config.default_font.len()
        invariant
            i <= config.default_font@.len(),
            config.default_font@.len() == was.len(),
            was == texts(old(config).default_font@),
            config.symbol_map == old(config).symbol_map,
            config.fonts == old(config).fonts,
            config.template == old(config).template,
            names == Seq::new(found@.len(), |k: int| found@[k].0@),
            values == Seq::new(found@.len(), |k: int| opt_text(found@[k].1)),
            forall|j: int|
                0 <= j < was.len() ==> #[trigger] texts(config.default_font@)[j] == (if j < i
                    && is_generic(was[j]) {
                    resolved(was[j], names, values)
                } else {
                    was[j]
                }),
        decreases config.default_font@.len() - i,
    {
        let ghost before = texts(config.default_font@);
        assert(before[i as int] == was[i as int]);
        if generic(config.default_font[i].as_str()) {
            let t = lookup_generic(config.default_font[i].as_str(), found);
            config.default_font.set(i, t);
        }
        assert forall|j: int| 0 <= j < was.len() implies #[trigger] texts(config.default_font@)[j]
            == (if j < i + 1 && is_generic(was[j]) {
            resolved(was[j], names, values)
        } else {
            was[j]
        }) by {
            if j != i {
                assert(texts(config.default_font@)[j] == before[j]);
            }
        }
        i += 1;
    }
}

fn lookup_generic(f: &str, found: &Vec<(String, Option<String>)>) -> (r: String)
    ensures
        r@ == resolved(
            f@,
            Seq::new(found@.len(), |k: int| found@[k].0@),
            Seq::new(found@.len(), |k: int| opt_text(found@[k].1)),
        ),
{
    let ghost names = Seq::new(found@.len(), |k: int| found@[k].0@);
    let ghost values = Seq::new(found@.len(), |k: int| opt_text(found@[k].1));
    let mut i: usize = 0;
    assert(names.skip(0) =~= names);
    assert(values.skip(0) =~= values);
    while i < found.len()
        invariant
            i <= found@.len(),
            names == Seq::new(found@.len(), |k: int| found@[k].0@),
            values == Seq::new(found@.len(), |k: int| opt_text(found@[k].1)),
            resolved(f@, names, values) == resolved(
                f@,
                names.skip(i as int),
                values.skip(i as int),
            ),
        decreases found@.len() - i,
    {
        assert(names.skip(i as int)[0] == found@[i as int].0@);
        assert(values.skip(i as int)[0] == opt_text(found@[i as int].1));
        assert(names.skip(i as int).drop_first() =~= names.skip(i + 1));
        assert(values.skip(i as int).drop_first() =~= values.skip(i + 1));
        if same_text(found[i].0.as_str(), f) {
            return match &found[i].1 {
                Some(c) => c.clone(),
                None => String::from_str(f),
            };
        }
        i += 1;
    }
    String::from_str(f)
}

} // verus!
