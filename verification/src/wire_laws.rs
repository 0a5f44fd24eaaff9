//! What the messages on the wire say, read by the names of their fields.
use crate::diff::{
    block_fields, field, image_fields, joined, json_block, json_color, json_cursor, json_glyph,
    json_image, json_msg, json_rect, json_string, json_style_entry, msg_fields, rect_fields,
    signed_dec, size_or_zero, style_fields, BlockView, MsgView, RectView,
};
use crate::json::{
    json_of, law_string_reads_back, lemma_dec_says, lemma_list, lemma_member, lemma_object,
    lemma_says_whole, lemma_words_say, member_says, members_say, number_of, plain, says, Json,
};
use crate::model::{CellStyle, Color, PlacementView};
use crate::text::dec;
use vstd::prelude::*;

verus! {

/// The members of an object.
pub type Members = Seq<(Seq<char>, Json)>;

/// The member with a name.
#[verifier::opaque]
pub open spec fn get(m: Members, name: Seq<char>) -> Option<Json>
    decreases m.len(),
{
    if m.len() == 0 {
        None
    } else if m[0].0 == name {
        Some(m[0].1)
    } else {
        get(m.skip(1), name)
    }
}

/// The members of a value that is an object.
pub open spec fn members_of(j: Json) -> Members {
    match j {
        Json::Object(m) => m,
        _ => Seq::empty(),
    }
}

/// The items of a member that is a list; none where it is missing.
pub open spec fn items_of(j: Option<Json>) -> Seq<Json> {
    match j {
        Some(Json::List(v)) => v,
        _ => Seq::empty(),
    }
}

/// The number in a member; zero where it is missing.
pub open spec fn number(j: Option<Json>) -> int {
    match j {
        Some(Json::Num(n)) => n,
        _ => 0,
    }
}

/// The text in a member.
pub open spec fn text_of(j: Option<Json>) -> Seq<char> {
    match j {
        Some(Json::Text(t)) => t,
        _ => Seq::empty(),
    }
}

/// The colour in a member: none, an index, or red, green and blue.
pub open spec fn color_of(j: Option<Json>) -> Color {
    match j {
        Some(Json::Num(i)) => Color::Idx(i as u8),
        Some(Json::List(v)) => Color::Rgb(
            number(Some(v[0])) as u8,
            number(Some(v[1])) as u8,
            number(Some(v[2])) as u8,
        ),
        _ => Color::Default,
    }
}

/// The style that an object says: `f` is the text's colour, `g` the background, `b` bold, `d`
/// dim, `i` italic, `u` the kind of underline, `s` struck, `k` the underline's colour, `n`
/// reverse video and `w` two columns.
pub open spec fn style_of(j: Json) -> CellStyle {
    let m = members_of(j);
    CellStyle {
        fg: color_of(get(m, seq!['f'])),
        bg: color_of(get(m, seq!['g'])),
        bold: get(m, seq!['b']) == Some(Json::Bool(true)),
        dim: get(m, seq!['d']) == Some(Json::Bool(true)),
        italic: get(m, seq!['i']) == Some(Json::Bool(true)),
        underline: number(get(m, seq!['u'])) as u8,
        strike: get(m, seq!['s']) == Some(Json::Bool(true)),
        ulcolor: color_of(get(m, seq!['k'])),
        inverse: get(m, seq!['n']) == Some(Json::Bool(true)),
        wide: get(m, seq!['w']) == Some(Json::Bool(true)),
    }
}

/// The text of a cell: none for a number.
pub open spec fn glyph_of(j: Json) -> Option<Seq<char>> {
    match j {
        Json::Text(t) => Some(t),
        _ => None,
    }
}

/// The block that members say: `t` holds its texts, `s` its styles by the places of their cells.
pub open spec fn block_of(m: Members) -> BlockView {
    let t = items_of(get(m, seq!['t']));
    let s = match get(m, seq!['s']) {
        Some(j) => members_of(j),
        None => Seq::empty(),
    };
    BlockView {
        text: Seq::new(t.len(), |i: int| glyph_of(t[i])),
        style: Seq::new(s.len(), |i: int| (number_of(s[i].0), style_of(s[i].1))),
    }
}

/// The rectangle that an object says.
pub open spec fn rect_of(j: Json) -> RectView {
    let m = members_of(j);
    RectView {
        top: number(get(m, seq!['t', 'o', 'p'])),
        left: number(get(m, seq!['l', 'e', 'f', 't'])),
        w: number(get(m, seq!['w'])),
        h: number(get(m, seq!['h'])),
        block: block_of(m),
    }
}

/// A size that may be missing.
pub open spec fn size_of(j: Option<Json>) -> Option<u16> {
    match j {
        Some(x) => Some(number(Some(x)) as u16),
        None => None,
    }
}

/// The image that an object says: its row and column, its columns and rows, its type and data.
pub open spec fn image_of(j: Json) -> PlacementView {
    let m = members_of(j);
    PlacementView {
        row: number(get(m, seq!['r'])) as i16,
        col: number(get(m, seq!['c'])) as u16,
        cols: size_of(get(m, seq!['w'])),
        rows: size_of(get(m, seq!['h'])),
        mime: text_of(get(m, seq!['m'])),
        data: text_of(get(m, seq!['d'])),
    }
}

/// The cursor's row and column, where it is shown.
pub open spec fn cursor_of(j: Option<Json>) -> Option<(u16, u16)> {
    match j {
        Some(Json::List(v)) => Some((number(Some(v[0])) as u16, number(Some(v[1])) as u16)),
        _ => None,
    }
}

/// The message that an object says; its field `t` tells the kind.
pub open spec fn msg_of(m: Members) -> Option<MsgView> {
    let kind = text_of(get(m, seq!['t']));
    let cur = cursor_of(get(m, seq!['c', 'u', 'r']));
    let cursor_style = number(get(m, seq!['q'])) as u8;
    if kind == seq!['f'] {
        let rows = items_of(get(m, seq!['r', 'o', 'w', 's']));
        let images = items_of(get(m, seq!['i']));
        Some(
            MsgView::Full {
                w: number(get(m, seq!['w'])) as u16,
                h: number(get(m, seq!['h'])),
                cur,
                rows: Seq::new(rows.len(), |i: int| block_of(members_of(rows[i]))),
                cursor_style,
                images: Seq::new(images.len(), |i: int| image_of(images[i])),
            },
        )
    } else if kind == seq!['d'] {
        let rects = items_of(get(m, seq!['r', 'e', 'c', 't', 's']));
        Some(
            MsgView::Diff { cur, rects: Seq::new(rects.len(), |i: int| rect_of(rects[i])), cursor_style },
        )
    } else if kind == seq!['b'] {
        Some(MsgView::Banner { html: text_of(get(m, seq!['h', 't', 'm', 'l'])) })
    } else {
        None
    }
}

/// The message that a text says.
pub open spec fn read_msg(s: Seq<char>) -> Option<MsgView> {
    match json_of(s) {
        Some(Json::Object(m)) => msg_of(m),
        _ => None,
    }
}

// ---- what the parts say ----

spec fn opt(present: bool, name: Seq<char>, j: Json) -> Members {
    if present {
        seq![(name, j)]
    } else {
        Seq::empty()
    }
}

proof fn lemma_field(present: bool, quoted: Seq<char>, name: Seq<char>, value: Seq<char>, j: Json)
    requires
        present ==> says(value, j),
        plain(name),
        quoted == seq!['"'] + name + seq!['"', ':'],
    ensures
        members_say(field(present, quoted, value), opt(present, name, j)),
{
    reveal(members_say);
    if present {
        lemma_member(quoted + value, name, value, j);
        assert(field(present, quoted, value)[0] == quoted + value);
    }
}

proof fn lemma_fields_join(a: Seq<Seq<char>>, x: Members, b: Seq<Seq<char>>, y: Members)
    requires
        members_say(a, x),
        members_say(b, y),
    ensures
        members_say(a + b, x + y),
{
    reveal(members_say);
    assert forall|i: int| 0 <= i < (a + b).len() implies member_says(#[trigger] (a + b)[i], (x + y)[i]) by {
        if i < a.len() {
            assert(member_says(a[i], x[i]));
        } else {
            assert(member_says(b[i - a.len()], y[i - a.len()]));
        }
    }
}

proof fn lemma_none() -> (r: (Seq<Seq<char>>, Members))
    ensures
        r.0 == Seq::<Seq<char>>::empty(),
        r.1 == Members::empty(),
        members_say(r.0, r.1),
        forall|key: Seq<char>| #[trigger] get(r.1, key) is None,
{
    reveal(members_say);
    reveal(get);
    (Seq::empty(), Seq::empty())
}

proof fn lemma_get_one(present: bool, name: Seq<char>, j: Json, key: Seq<char>)
    ensures
        get(opt(present, name, j), key) == if present && key == name {
            Some(j)
        } else {
            None
        },
{
    reveal_with_fuel(get, 2);
    if present {
        let m = opt(present, name, j);
        assert(m.skip(1) =~= Seq::empty());
        assert(get(m.skip(1), key) is None);
    }
}

proof fn lemma_get_join(a: Members, b: Members, key: Seq<char>)
    ensures
        get(a + b, key) == if get(a, key) is Some {
            get(a, key)
        } else {
            get(b, key)
        },
    decreases a.len(),
{
    reveal(get);
    if a.len() == 0 {
        assert(a + b =~= b);
    } else {
        lemma_get_join(a.skip(1), b, key);
        assert((a + b).skip(1) =~= a.skip(1) + b);
        assert((a + b)[0] == a[0]);
    }
}

proof fn lemma_more(
    a: Seq<Seq<char>>,
    x: Members,
    present: bool,
    quoted: Seq<char>,
    name: Seq<char>,
    value: Seq<char>,
    j: Json,
) -> (r: (Seq<Seq<char>>, Members))
    requires
        members_say(a, x),
        present ==> says(value, j),
        plain(name),
        quoted =~= seq!['"'] + name + seq!['"', ':'],
    ensures
        r.0 == a + field(present, quoted, value),
        r.1 == x + opt(present, name, j),
        members_say(r.0, r.1),
        forall|key: Seq<char>|
            #![trigger get(r.1, key)]
            get(r.1, key) == if get(x, key) is Some {
                get(x, key)
            } else if present && key == name {
                Some(j)
            } else {
                None
            },
{
    lemma_field(present, quoted, name, value, j);
    lemma_fields_join(a, x, field(present, quoted, value), opt(present, name, j));
    let y = x + opt(present, name, j);
    assert forall|key: Seq<char>|
        #![trigger get(y, key)]
        get(y, key) == if get(x, key) is Some {
            get(x, key)
        } else if present && key == name {
            Some(j)
        } else {
            None
        } by {
        lemma_get_join(x, opt(present, name, j), key);
        lemma_get_one(present, name, j, key);
    }
    (a + field(present, quoted, value), y)
}

spec fn color_tree(c: Color) -> Json {
    match c {
        Color::Default => Json::Null,
        Color::Idx(i) => Json::Num(i as int),
        Color::Rgb(r, g, b) => Json::List(
            seq![Json::Num(r as int), Json::Num(g as int), Json::Num(b as int)],
        ),
    }
}

proof fn lemma_color_says(c: Color)
    ensures
        says(json_color(c), color_tree(c)),
        color_of(Some(color_tree(c))) == c,
{
    lemma_words_say();
    match c {
        Color::Default => {},
        Color::Idx(i) => {
            lemma_dec_says(i as nat);
        },
        Color::Rgb(r, g, b) => {
            lemma_dec_says(r as nat);
            lemma_dec_says(g as nat);
            lemma_dec_says(b as nat);
            let t = seq![dec(r as nat), dec(g as nat), dec(b as nat)];
            let j = seq![Json::Num(r as int), Json::Num(g as int), Json::Num(b as int)];
            assert(t.drop_last() =~= seq![dec(r as nat), dec(g as nat)]);
            assert(t.drop_last().drop_last() =~= seq![dec(r as nat)]);
            reveal_with_fuel(joined, 3);
            assert(joined(t) =~= dec(r as nat) + ","@ + dec(g as nat) + ","@ + dec(b as nat));
            lemma_list(t, j);
            assert(json_color(c) =~= "["@ + joined(t) + "]"@);
        },
    }
}

spec fn style_tree(s: CellStyle) -> Members {
    opt(s.fg != Color::Default, seq!['f'], color_tree(s.fg)) + opt(
        s.bg != Color::Default,
        seq!['g'],
        color_tree(s.bg),
    ) + opt(s.bold, seq!['b'], Json::Bool(true)) + opt(s.dim, seq!['d'], Json::Bool(true)) + opt(
        s.italic,
        seq!['i'],
        Json::Bool(true),
    ) + opt(s.underline != 0, seq!['u'], Json::Num(s.underline as int)) + opt(
        s.strike,
        seq!['s'],
        Json::Bool(true),
    ) + opt(s.ulcolor != Color::Default, seq!['k'], color_tree(s.ulcolor)) + opt(
        s.inverse,
        seq!['n'],
        Json::Bool(true),
    ) + opt(s.wide, seq!['w'], Json::Bool(true))
}

spec fn wanted(s: CellStyle, key: char) -> Option<Json> {
    let yes = Json::Bool(true);
    if key == 'f' {
        some_if(s.fg != Color::Default, color_tree(s.fg))
    } else if key == 'g' {
        some_if(s.bg != Color::Default, color_tree(s.bg))
    } else if key == 'b' {
        some_if(s.bold, yes)
    } else if key == 'd' {
        some_if(s.dim, yes)
    } else if key == 'i' {
        some_if(s.italic, yes)
    } else if key == 'u' {
        some_if(s.underline != 0, Json::Num(s.underline as int))
    } else if key == 's' {
        some_if(s.strike, yes)
    } else if key == 'k' {
        some_if(s.ulcolor != Color::Default, color_tree(s.ulcolor))
    } else if key == 'n' {
        some_if(s.inverse, yes)
    } else if key == 'w' {
        some_if(s.wide, yes)
    } else {
        None
    }
}

spec fn some_if(present: bool, j: Json) -> Option<Json> {
    if present {
        Some(j)
    } else {
        None
    }
}

proof fn lemma_then(
    a: Seq<Seq<char>>,
    x: Members,
    present: bool,
    quoted: Seq<char>,
    name: Seq<char>,
    value: Seq<char>,
    j: Json,
)
    requires
        members_say(a, x),
        present ==> says(value, j),
        plain(name),
        quoted =~= seq!['"'] + name + seq!['"', ':'],
    ensures
        members_say(a + field(present, quoted, value), x + opt(present, name, j)),
{
    let (b, y) = lemma_more(a, x, present, quoted, name, value, j);
}

proof fn lemma_style_says(s: CellStyle)
    ensures
        members_say(style_fields(s), style_tree(s)),
{
    lemma_words_say();
    lemma_color_says(s.fg);
    lemma_color_says(s.bg);
    lemma_color_says(s.ulcolor);
    lemma_dec_says(s.underline as nat);
    let yes = Json::Bool(true);
    assert("\"f\":"@ =~= seq!['"'] + seq!['f'] + seq!['"', ':']) by {
        reveal_strlit("\"f\":");
    }
    let (f0, p0) = (field(s.fg != Color::Default, "\"f\":"@, json_color(s.fg)), opt(s.fg != Color::Default, seq!['f'], color_tree(s.fg)));
    lemma_field(s.fg != Color::Default, "\"f\":"@, seq!['f'], json_color(s.fg), color_tree(s.fg));
    let (a0, x0) = (f0, p0);
    assert("\"g\":"@ =~= seq!['"'] + seq!['g'] + seq!['"', ':']) by {
        reveal_strlit("\"g\":");
    }
    let (f1, p1) = (field(s.bg != Color::Default, "\"g\":"@, json_color(s.bg)), opt(s.bg != Color::Default, seq!['g'], color_tree(s.bg)));
    lemma_then(a0, x0, s.bg != Color::Default, "\"g\":"@, seq!['g'], json_color(s.bg), color_tree(s.bg));
    let (a1, x1) = (a0 + f1, x0 + p1);
    assert("\"b\":"@ =~= seq!['"'] + seq!['b'] + seq!['"', ':']) by {
        reveal_strlit("\"b\":");
    }
    let (f2, p2) = (field(s.bold, "\"b\":"@, "true"@), opt(s.bold, seq!['b'], yes));
    lemma_then(a1, x1, s.bold, "\"b\":"@, seq!['b'], "true"@, yes);
    let (a2, x2) = (a1 + f2, x1 + p2);
    assert("\"d\":"@ =~= seq!['"'] + seq!['d'] + seq!['"', ':']) by {
        reveal_strlit("\"d\":");
    }
    let (f3, p3) = (field(s.dim, "\"d\":"@, "true"@), opt(s.dim, seq!['d'], yes));
    lemma_then(a2, x2, s.dim, "\"d\":"@, seq!['d'], "true"@, yes);
    let (a3, x3) = (a2 + f3, x2 + p3);
    assert("\"i\":"@ =~= seq!['"'] + seq!['i'] + seq!['"', ':']) by {
        reveal_strlit("\"i\":");
    }
    let (f4, p4) = (field(s.italic, "\"i\":"@, "true"@), opt(s.italic, seq!['i'], yes));
    lemma_then(a3, x3, s.italic, "\"i\":"@, seq!['i'], "true"@, yes);
    let (a4, x4) = (a3 + f4, x3 + p4);
    assert("\"u\":"@ =~= seq!['"'] + seq!['u'] + seq!['"', ':']) by {
        reveal_strlit("\"u\":");
    }
    let (f5, p5) = (field(s.underline != 0, "\"u\":"@, dec(s.underline as nat)), opt(s.underline != 0, seq!['u'], Json::Num(s.underline as int)));
    lemma_then(a4, x4, s.underline != 0, "\"u\":"@, seq!['u'], dec(s.underline as nat), Json::Num(s.underline as int));
    let (a5, x5) = (a4 + f5, x4 + p5);
    assert("\"s\":"@ =~= seq!['"'] + seq!['s'] + seq!['"', ':']) by {
        reveal_strlit("\"s\":");
    }
    let (f6, p6) = (field(s.strike, "\"s\":"@, "true"@), opt(s.strike, seq!['s'], yes));
    lemma_then(a5, x5, s.strike, "\"s\":"@, seq!['s'], "true"@, yes);
    let (a6, x6) = (a5 + f6, x5 + p6);
    assert("\"k\":"@ =~= seq!['"'] + seq!['k'] + seq!['"', ':']) by {
        reveal_strlit("\"k\":");
    }
    let (f7, p7) = (field(s.ulcolor != Color::Default, "\"k\":"@, json_color(s.ulcolor)), opt(s.ulcolor != Color::Default, seq!['k'], color_tree(s.ulcolor)));
    lemma_then(a6, x6, s.ulcolor != Color::Default, "\"k\":"@, seq!['k'], json_color(s.ulcolor), color_tree(s.ulcolor));
    let (a7, x7) = (a6 + f7, x6 + p7);
    assert("\"n\":"@ =~= seq!['"'] + seq!['n'] + seq!['"', ':']) by {
        reveal_strlit("\"n\":");
    }
    let (f8, p8) = (field(s.inverse, "\"n\":"@, "true"@), opt(s.inverse, seq!['n'], yes));
    lemma_then(a7, x7, s.inverse, "\"n\":"@, seq!['n'], "true"@, yes);
    let (a8, x8) = (a7 + f8, x7 + p8);
    assert("\"w\":"@ =~= seq!['"'] + seq!['w'] + seq!['"', ':']) by {
        reveal_strlit("\"w\":");
    }
    let (f9, p9) = (field(s.wide, "\"w\":"@, "true"@), opt(s.wide, seq!['w'], yes));
    lemma_then(a8, x8, s.wide, "\"w\":"@, seq!['w'], "true"@, yes);
    let (a9, x9) = (a8 + f9, x8 + p9);
}

proof fn lemma_style_got(s: CellStyle, key: char)
    ensures
        get(style_tree(s), seq![key]) == wanted(s, key),
{
    let q = seq![key];
    let yes = Json::Bool(true);
    assert(q[0] == key);
    let p0 = opt(s.fg != Color::Default, seq!['f'], color_tree(s.fg));
    lemma_get_one(s.fg != Color::Default, seq!['f'], color_tree(s.fg), q);
    assert(seq!['f'][0] == 'f');
    let x0 = p0;
    let p1 = opt(s.bg != Color::Default, seq!['g'], color_tree(s.bg));
    lemma_get_one(s.bg != Color::Default, seq!['g'], color_tree(s.bg), q);
    assert(seq!['g'][0] == 'g');
    lemma_get_join(x0, p1, q);
    let x1 = x0 + p1;
    let p2 = opt(s.bold, seq!['b'], yes);
    lemma_get_one(s.bold, seq!['b'], yes, q);
    assert(seq!['b'][0] == 'b');
    lemma_get_join(x1, p2, q);
    let x2 = x1 + p2;
    let p3 = opt(s.dim, seq!['d'], yes);
    lemma_get_one(s.dim, seq!['d'], yes, q);
    assert(seq!['d'][0] == 'd');
    lemma_get_join(x2, p3, q);
    let x3 = x2 + p3;
    let p4 = opt(s.italic, seq!['i'], yes);
    lemma_get_one(s.italic, seq!['i'], yes, q);
    assert(seq!['i'][0] == 'i');
    lemma_get_join(x3, p4, q);
    let x4 = x3 + p4;
    let p5 = opt(s.underline != 0, seq!['u'], Json::Num(s.underline as int));
    lemma_get_one(s.underline != 0, seq!['u'], Json::Num(s.underline as int), q);
    assert(seq!['u'][0] == 'u');
    lemma_get_join(x4, p5, q);
    let x5 = x4 + p5;
    let p6 = opt(s.strike, seq!['s'], yes);
    lemma_get_one(s.strike, seq!['s'], yes, q);
    assert(seq!['s'][0] == 's');
    lemma_get_join(x5, p6, q);
    let x6 = x5 + p6;
    let p7 = opt(s.ulcolor != Color::Default, seq!['k'], color_tree(s.ulcolor));
    lemma_get_one(s.ulcolor != Color::Default, seq!['k'], color_tree(s.ulcolor), q);
    assert(seq!['k'][0] == 'k');
    lemma_get_join(x6, p7, q);
    let x7 = x6 + p7;
    let p8 = opt(s.inverse, seq!['n'], yes);
    lemma_get_one(s.inverse, seq!['n'], yes, q);
    assert(seq!['n'][0] == 'n');
    lemma_get_join(x7, p8, q);
    let x8 = x7 + p8;
    let p9 = opt(s.wide, seq!['w'], yes);
    lemma_get_one(s.wide, seq!['w'], yes, q);
    assert(seq!['w'][0] == 'w');
    lemma_get_join(x8, p9, q);
    let x9 = x8 + p9;
}

/// A style on the wire, read by the names of its fields, is that style; the name of its entry
/// is the place of its cell.
pub proof fn law_style_reads_back(e: (int, CellStyle))
    requires
        e.0 >= 0,
    ensures
        exists|m: (Seq<char>, Json)|
            member_says(json_style_entry(e), m) && number_of(m.0) == e.0 && style_of(m.1) == e.1,
{
    lemma_entry(e);
    assert(member_says(json_style_entry(e), entry_tree(e)));
}

spec fn entry_tree(e: (int, CellStyle)) -> (Seq<char>, Json) {
    (dec(e.0 as nat), Json::Object(style_tree(e.1)))
}

proof fn lemma_entry(e: (int, CellStyle))
    requires
        e.0 >= 0,
    ensures
        member_says(json_style_entry(e), entry_tree(e)),
        number_of(entry_tree(e).0) == e.0,
        style_of(entry_tree(e).1) == e.1,
{
    let s = e.1;
    let d = dec(e.0 as nat);
    lemma_style_says(s);
    lemma_object(style_fields(s), style_tree(s));
    crate::json::lemma_number(e.0 as nat);
    assert(plain(d)) by {
        assert forall|i: int| 0 <= i < d.len() implies 32 <= #[trigger] d[i] as u32 && d[i] != '"' && d[i]
            != '\\' by {
            assert(crate::text::is_digit(d[i]));
        }
    }
    reveal_strlit("\"");
    reveal_strlit("\":{");
    reveal_strlit("{");
    let v = "{"@ + joined(style_fields(s)) + "}"@;
    assert(json_style_entry(e) =~= seq!['"'] + d + seq!['"', ':'] + v);
    lemma_member(json_style_entry(e), d, v, Json::Object(style_tree(s)));
    lemma_color_says(s.fg);
    lemma_color_says(s.bg);
    lemma_color_says(s.ulcolor);
    lemma_style_got(s, 'f');
    lemma_style_got(s, 'g');
    lemma_style_got(s, 'b');
    lemma_style_got(s, 'd');
    lemma_style_got(s, 'i');
    lemma_style_got(s, 'u');
    lemma_style_got(s, 's');
    lemma_style_got(s, 'k');
    lemma_style_got(s, 'n');
    lemma_style_got(s, 'w');
}

// ---- blocks, rectangles and images ----

/// Whether the places of a block's styles are places.
pub open spec fn placed(b: BlockView) -> bool {
    forall|i: int| 0 <= i < b.style.len() ==> (#[trigger] b.style[i]).0 >= 0
}

spec fn glyph_tree(t: Option<Seq<char>>) -> Json {
    match t {
        Some(g) => Json::Text(g),
        None => Json::Num(0),
    }
}

spec fn texts_tree(b: BlockView) -> Json {
    Json::List(Seq::new(b.text.len(), |i: int| glyph_tree(b.text[i])))
}

spec fn styles_tree(b: BlockView) -> Json {
    Json::Object(Seq::new(b.style.len(), |i: int| entry_tree(b.style[i])))
}

proof fn lemma_texts(b: BlockView)
    ensures
        says(
            "["@ + joined(Seq::new(b.text.len(), |i: int| json_glyph(b.text[i]))) + "]"@,
            texts_tree(b),
        ),
{
    let t = Seq::new(b.text.len(), |i: int| json_glyph(b.text[i]));
    let j = Seq::new(b.text.len(), |i: int| glyph_tree(b.text[i]));
    assert forall|i: int| 0 <= i < t.len() implies says(#[trigger] t[i], j[i]) by {
        lemma_words_say();
        match b.text[i] {
            Some(g) => law_string_reads_back(g),
            None => {},
        }
    }
    lemma_list(t, j);
}

proof fn lemma_styles(b: BlockView)
    requires
        placed(b),
    ensures
        says(
            "{"@ + joined(Seq::new(b.style.len(), |i: int| json_style_entry(b.style[i]))) + "}"@,
            styles_tree(b),
        ),
{
    let t = Seq::new(b.style.len(), |i: int| json_style_entry(b.style[i]));
    let m = Seq::new(b.style.len(), |i: int| entry_tree(b.style[i]));
    assert(members_say(t, m)) by {
        reveal(members_say);
        assert forall|i: int| 0 <= i < t.len() implies member_says(#[trigger] t[i], m[i]) by {
            lemma_entry(b.style[i]);
        }
    }
    lemma_object(t, m);
}

proof fn lemma_block(a: Seq<Seq<char>>, x: Members, b: BlockView) -> (r: (Seq<Seq<char>>, Members))
    requires
        members_say(a, x),
        placed(b),
        get(x, seq!['t']) is None,
        get(x, seq!['s']) is None,
    ensures
        r.0 == a + block_fields(b),
        members_say(r.0, r.1),
        block_of(r.1) == b,
        forall|key: Seq<char>|
            #![trigger get(r.1, key)]
            key != seq!['t'] && key != seq!['s'] ==> get(r.1, key) == get(x, key),
{
    let t = joined(Seq::new(b.text.len(), |i: int| json_glyph(b.text[i])));
    let s = joined(Seq::new(b.style.len(), |i: int| json_style_entry(b.style[i])));
    let tq = seq!['"', 't', '"', ':'];
    let sq = seq!['"', 's', '"', ':'];
    lemma_texts(b);
    lemma_styles(b);
    let (a1, x1) = lemma_more(a, x, b.text.len() > 0, tq, seq!['t'], "["@ + t + "]"@, texts_tree(b));
    let (a2, x2) = lemma_more(
        a1,
        x1,
        b.style.len() > 0,
        sq,
        seq!['s'],
        "{"@ + s + "}"@,
        styles_tree(b),
    );
    reveal_strlit("\"t\":[");
    reveal_strlit("\"s\":{");
    reveal_strlit("[");
    reveal_strlit("{");
    assert("\"t\":["@ + (t + "]"@) =~= tq + ("["@ + t + "]"@));
    assert("\"s\":{"@ + (s + "}"@) =~= sq + ("{"@ + s + "}"@));
    assert(a2 =~= a + block_fields(b));
    assert(seq!['t'][0] != seq!['s'][0]);
    assert(get(x2, seq!['t']) == if b.text.len() > 0 {
        Some(texts_tree(b))
    } else {
        None
    });
    assert(get(x2, seq!['s']) == if b.style.len() > 0 {
        Some(styles_tree(b))
    } else {
        None
    });
    let back = block_of(x2);
    assert(back.text =~= b.text) by {
        assert forall|i: int| 0 <= i < b.text.len() implies back.text[i] == b.text[i] by {
            assert(back.text[i] == glyph_of(glyph_tree(b.text[i])));
        }
    }
    assert(back.style =~= b.style) by {
        assert forall|i: int| 0 <= i < b.style.len() implies back.style[i] == b.style[i] by {
            lemma_entry(b.style[i]);
            let e = entry_tree(b.style[i]);
            assert(back.style[i] == (number_of(e.0), style_of(e.1)));
        }
    }
    (a2, x2)
}

proof fn lemma_block_says(b: BlockView) -> (m: Members)
    requires
        placed(b),
    ensures
        says(json_block(b), Json::Object(m)),
        block_of(m) == b,
{
    let (a, x) = lemma_none();
    let (a1, x1) = lemma_block(a, x, b);
    assert(a1 =~= block_fields(b));
    lemma_object(a1, x1);
    x1
}

/// Whether a rectangle's numbers are places and sizes.
pub open spec fn rect_placed(r: RectView) -> bool {
    r.top >= 0 && r.left >= 0 && r.w >= 0 && r.h >= 0 && placed(r.block)
}

proof fn lemma_rect_says(r: RectView) -> (m: Members)
    requires
        rect_placed(r),
    ensures
        says(json_rect(r), Json::Object(m)),
        rect_of(Json::Object(m)) == r,
{
    reveal_strlit("\"top\":");
    reveal_strlit("\"left\":");
    reveal_strlit("\"w\":");
    reveal_strlit("\"h\":");
    lemma_dec_says(r.top as nat);
    lemma_dec_says(r.left as nat);
    lemma_dec_says(r.w as nat);
    lemma_dec_says(r.h as nat);
    let top = seq!['t', 'o', 'p'];
    let left = seq!['l', 'e', 'f', 't'];
    let w = seq!['w'];
    let h = seq!['h'];
    let (a, x) = lemma_none();
    let (a1, x1) = lemma_more(a, x, true, "\"top\":"@, top, dec(r.top as nat), Json::Num(r.top));
    let (a2, x2) = lemma_more(a1, x1, true, "\"left\":"@, left, dec(r.left as nat), Json::Num(r.left));
    let (a3, x3) = lemma_more(a2, x2, true, "\"w\":"@, w, dec(r.w as nat), Json::Num(r.w));
    let (a4, x4) = lemma_more(a3, x3, true, "\"h\":"@, h, dec(r.h as nat), Json::Num(r.h));
    assert(w[0] != h[0] && w[0] != 't' && w[0] != 's' && h[0] != 't' && h[0] != 's');
    assert(seq!['t'][0] == 't' && seq!['s'][0] == 's' && seq!['t'].len() == 1 && seq!['s'].len() == 1);
    assert(top.len() == 3 && left.len() == 4);
    let (a5, x5) = lemma_block(a4, x4, r.block);
    assert(get(x5, top) == Some(Json::Num(r.top)));
    assert(get(x5, left) == Some(Json::Num(r.left)));
    assert(get(x5, w) == Some(Json::Num(r.w)));
    assert(get(x5, h) == Some(Json::Num(r.h)));
    assert(a5 =~= rect_fields(r));
    lemma_object(a5, x5);
    x5
}

proof fn lemma_image_says(p: PlacementView) -> (m: Members)
    ensures
        says(json_image(p), Json::Object(m)),
        image_of(Json::Object(m)) == p,
{
    reveal_strlit("\"r\":");
    reveal_strlit("\"c\":");
    reveal_strlit("\"w\":");
    reveal_strlit("\"h\":");
    reveal_strlit("\"m\":");
    reveal_strlit("\"d\":");
    let row = Json::Num(p.row as int);
    if p.row < 0 {
        lemma_dec_says((-(p.row as int)) as nat);
    } else {
        lemma_dec_says(p.row as nat);
    }
    assert(says(signed_dec(p.row as int), row));
    lemma_dec_says(p.col as nat);
    lemma_dec_says(size_or_zero(p.cols));
    lemma_dec_says(size_or_zero(p.rows));
    law_string_reads_back(p.mime);
    law_string_reads_back(p.data);
    let (r, c, w, h, mi, d) = (seq!['r'], seq!['c'], seq!['w'], seq!['h'], seq!['m'], seq!['d']);
    let col = Json::Num(p.col as int);
    let cols = Json::Num(size_or_zero(p.cols) as int);
    let rows = Json::Num(size_or_zero(p.rows) as int);
    let (a, x) = lemma_none();
    let (a1, x1) = lemma_more(a, x, true, "\"r\":"@, r, signed_dec(p.row as int), row);
    let (a2, x2) = lemma_more(a1, x1, true, "\"c\":"@, c, dec(p.col as nat), col);
    let (a3, x3) = lemma_more(
        a2,
        x2,
        p.cols is Some,
        "\"w\":"@,
        w,
        dec(size_or_zero(p.cols)),
        cols,
    );
    let (a4, x4) = lemma_more(
        a3,
        x3,
        p.rows is Some,
        "\"h\":"@,
        h,
        dec(size_or_zero(p.rows)),
        rows,
    );
    let (a5, x5) = lemma_more(
        a4,
        x4,
        true,
        "\"m\":"@,
        mi,
        json_string(p.mime),
        Json::Text(p.mime),
    );
    let (a6, x6) = lemma_more(
        a5,
        x5,
        true,
        "\"d\":"@,
        d,
        json_string(p.data),
        Json::Text(p.data),
    );
    assert(r[0] == 'r' && c[0] == 'c' && w[0] == 'w' && h[0] == 'h' && mi[0] == 'm' && d[0] == 'd');
    assert(get(x6, r) == Some(row));
    assert(get(x6, c) == Some(col));
    assert(get(x6, w) == if p.cols is Some {
        Some(cols)
    } else {
        None
    });
    assert(get(x6, h) == if p.rows is Some {
        Some(rows)
    } else {
        None
    });
    assert(get(x6, mi) == Some(Json::Text(p.mime)));
    assert(get(x6, d) == Some(Json::Text(p.data)));
    assert(a6 =~= image_fields(p));
    lemma_object(a6, x6);
    x6
}

// ---- messages ----

/// Whether the numbers of a message are places and sizes.
pub open spec fn msg_placed(m: MsgView) -> bool {
    match m {
        MsgView::Full { h, rows, .. } => h >= 0 && forall|i: int|
            0 <= i < rows.len() ==> placed(#[trigger] rows[i]),
        MsgView::Diff { rects, .. } => forall|i: int|
            0 <= i < rects.len() ==> rect_placed(#[trigger] rects[i]),
        MsgView::Banner { .. } => true,
    }
}

spec fn cursor_tree(c: Option<(u16, u16)>) -> Json {
    match c {
        Some((r, c)) => Json::List(seq![Json::Num(r as int), Json::Num(c as int)]),
        None => Json::Null,
    }
}

proof fn lemma_cursor_says(c: Option<(u16, u16)>)
    ensures
        says(json_cursor(c), cursor_tree(c)),
        cursor_of(Some(cursor_tree(c))) == c,
{
    lemma_words_say();
    match c {
        Some((r, c)) => {
            lemma_dec_says(r as nat);
            lemma_dec_says(c as nat);
            let t = seq![dec(r as nat), dec(c as nat)];
            assert(t.drop_last() =~= seq![dec(r as nat)]);
            reveal_with_fuel(joined, 2);
            lemma_list(t, seq![Json::Num(r as int), Json::Num(c as int)]);
            assert(json_cursor(Some((r, c))) =~= "["@ + joined(t) + "]"@);
        },
        None => {},
    }
}

proof fn lemma_rows_say(rows: Seq<BlockView>) -> (j: Seq<Json>)
    requires
        forall|i: int| 0 <= i < rows.len() ==> placed(#[trigger] rows[i]),
    ensures
        says(
            "["@ + joined(Seq::new(rows.len(), |i: int| json_block(rows[i]))) + "]"@,
            Json::List(j),
        ),
        j.len() == rows.len(),
        forall|i: int| 0 <= i < j.len() ==> block_of(members_of(#[trigger] j[i])) == rows[i],
{
    let t = Seq::new(rows.len(), |i: int| json_block(rows[i]));
    let j = Seq::new(
        rows.len(),
        |i: int|
            Json::Object(
                choose|m: Members| says(json_block(rows[i]), Json::Object(m)) && block_of(m) == rows[i],
            ),
    );
    assert forall|i: int| 0 <= i < rows.len() implies says(#[trigger] t[i], j[i]) && block_of(
        members_of(j[i]),
    ) == rows[i] by {
        assert(placed(rows[i]));
        let m = lemma_block_says(rows[i]);
        assert(says(json_block(rows[i]), Json::Object(m)) && block_of(m) == rows[i]);
    }
    assert forall|i: int| 0 <= i < j.len() implies block_of(members_of(#[trigger] j[i])) == rows[i] by {
        assert(says(t[i], j[i]));
    }
    lemma_list(t, j);
    j
}

proof fn lemma_rects_say(rects: Seq<RectView>) -> (j: Seq<Json>)
    requires
        forall|i: int| 0 <= i < rects.len() ==> rect_placed(#[trigger] rects[i]),
    ensures
        says(
            "["@ + joined(Seq::new(rects.len(), |i: int| json_rect(rects[i]))) + "]"@,
            Json::List(j),
        ),
        j.len() == rects.len(),
        forall|i: int| 0 <= i < j.len() ==> rect_of(#[trigger] j[i]) == rects[i],
{
    let t = Seq::new(rects.len(), |i: int| json_rect(rects[i]));
    let j = Seq::new(
        rects.len(),
        |i: int| choose|j: Json| says(json_rect(rects[i]), j) && rect_of(j) == rects[i],
    );
    assert forall|i: int| 0 <= i < rects.len() implies says(#[trigger] t[i], j[i]) && rect_of(j[i])
        == rects[i] by {
        assert(rect_placed(rects[i]));
        let m = Json::Object(lemma_rect_says(rects[i]));
        assert(says(json_rect(rects[i]), m) && rect_of(m) == rects[i]);
    }
    assert forall|i: int| 0 <= i < j.len() implies rect_of(#[trigger] j[i]) == rects[i] by {
        assert(says(t[i], j[i]));
    }
    lemma_list(t, j);
    j
}

proof fn lemma_images_say(images: Seq<PlacementView>) -> (j: Seq<Json>)
    ensures
        says(
            "["@ + joined(Seq::new(images.len(), |i: int| json_image(images[i]))) + "]"@,
            Json::List(j),
        ),
        j.len() == images.len(),
        forall|i: int| 0 <= i < j.len() ==> image_of(#[trigger] j[i]) == images[i],
{
    let t = Seq::new(images.len(), |i: int| json_image(images[i]));
    let j = Seq::new(
        images.len(),
        |i: int| choose|j: Json| says(json_image(images[i]), j) && image_of(j) == images[i],
    );
    assert forall|i: int| 0 <= i < images.len() implies says(#[trigger] t[i], j[i]) && image_of(j[i])
        == images[i] by {
        let m = Json::Object(lemma_image_says(images[i]));
        assert(says(json_image(images[i]), m) && image_of(m) == images[i]);
    }
    assert forall|i: int| 0 <= i < j.len() implies image_of(#[trigger] j[i]) == images[i] by {
        assert(says(t[i], j[i]));
    }
    lemma_list(t, j);
    j
}

proof fn lemma_full_says(m: MsgView) -> (x: Members)
    requires
        m is Full,
        msg_placed(m),
    ensures
        says(json_msg(m), Json::Object(x)),
        msg_of(x) == Some(m),
{
    let (w, h, cur, rows, q, images) = (
        m->w,
        m->h,
        m->Full_cur,
        m->rows,
        m->Full_cursor_style,
        m->images,
    );
    let rt = joined(Seq::new(rows.len(), |i: int| json_block(rows[i])));
    let it = joined(Seq::new(images.len(), |i: int| json_image(images[i])));
    let rj = lemma_rows_say(rows);
    let ij = lemma_images_say(images);
    lemma_cursor_says(cur);
    lemma_dec_says(w as nat);
    lemma_dec_says(h as nat);
    lemma_dec_says(q as nat);
    law_string_reads_back(seq!['f']);
    assert("\"f\""@ =~= json_string(seq!['f'])) by {
        lemma_letter_string('f');
        reveal_strlit("\"f\"");
    }
    let kt = seq!['t'];
    let kw = seq!['w'];
    let kh = seq!['h'];
    let kc = seq!['c', 'u', 'r'];
    let kr = seq!['r', 'o', 'w', 's'];
    let kq = seq!['q'];
    let ki = seq!['i'];
    assert("\"t\":"@ =~= seq!['"'] + kt + seq!['"', ':']) by {
        reveal_strlit("\"t\":");
    }
    assert("\"w\":"@ =~= seq!['"'] + kw + seq!['"', ':']) by {
        reveal_strlit("\"w\":");
    }
    assert("\"h\":"@ =~= seq!['"'] + kh + seq!['"', ':']) by {
        reveal_strlit("\"h\":");
    }
    assert("\"cur\":"@ =~= seq!['"'] + kc + seq!['"', ':']) by {
        reveal_strlit("\"cur\":");
    }
    assert("\"q\":"@ =~= seq!['"'] + kq + seq!['"', ':']) by {
        reveal_strlit("\"q\":");
    }
    let rq = seq!['"'] + kr + seq!['"', ':'];
    let iq = seq!['"'] + ki + seq!['"', ':'];
    let rv = "["@ + rt + "]"@;
    let iv = "["@ + it + "]"@;
    assert("\"rows\":["@ + (rt + "]"@) =~= rq + rv) by {
        reveal_strlit("\"rows\":[");
        reveal_strlit("[");
    }
    assert("\"i\":["@ + (it + "]"@) =~= iq + iv) by {
        reveal_strlit("\"i\":[");
        reveal_strlit("[");
    }
    let (a, x) = lemma_none();
    let (a, x) = lemma_more(a, x, true, "\"t\":"@, kt, "\"f\""@, Json::Text(seq!['f']));
    let (a, x) = lemma_more(a, x, true, "\"w\":"@, kw, dec(w as nat), Json::Num(w as int));
    let (a, x) = lemma_more(a, x, true, "\"h\":"@, kh, dec(h as nat), Json::Num(h));
    let (a, x) = lemma_more(a, x, true, "\"cur\":"@, kc, json_cursor(cur), cursor_tree(cur));
    let (a, x) = lemma_more(a, x, true, rq, kr, rv, Json::List(rj));
    let (a, x) = lemma_more(a, x, q != 0, "\"q\":"@, kq, dec(q as nat), Json::Num(q as int));
    let (a, x) = lemma_more(a, x, images.len() > 0, iq, ki, iv, Json::List(ij));
    assert(kt[0] == 't' && kw[0] == 'w' && kh[0] == 'h' && kc[0] == 'c' && kr[0] == 'r' && kq[0] == 'q'
        && ki[0] == 'i');
    assert(get(x, kt) == Some(Json::Text(seq!['f'])));
    assert(get(x, kw) == Some(Json::Num(w as int)));
    assert(get(x, kh) == Some(Json::Num(h)));
    assert(get(x, kc) == Some(cursor_tree(cur)));
    assert(get(x, kr) == Some(Json::List(rj)));
    assert(get(x, kq) == some_if(q != 0, Json::Num(q as int)));
    assert(get(x, ki) == some_if(images.len() > 0, Json::List(ij)));
    assert(a =~= msg_fields(m));
    lemma_object(a, x);
    let back = msg_of(x)->0;
    assert(back->rows =~= rows) by {
        assert forall|i: int| 0 <= i < rows.len() implies back->rows[i] == rows[i] by {
            assert(block_of(members_of(rj[i])) == rows[i]);
        }
    }
    assert(back->images =~= images) by {
        assert forall|i: int| 0 <= i < images.len() implies back->images[i] == images[i] by {
            assert(image_of(ij[i]) == images[i]);
        }
    }
    x
}

proof fn lemma_letter_string(c: char)
    requires
        'a' <= c <= 'z',
    ensures
        json_string(seq![c]) == seq!['"', c, '"'],
{
    reveal_strlit("\"");
    crate::json::lemma_plain_chars(seq![c]);
    assert(json_string(seq![c]) =~= seq!['"', c, '"']);
}

proof fn lemma_diff_says(m: MsgView) -> (x: Members)
    requires
        m is Diff,
        msg_placed(m),
    ensures
        says(json_msg(m), Json::Object(x)),
        msg_of(x) == Some(m),
{
    let (cur, rects, q) = (m->Diff_cur, m->rects, m->Diff_cursor_style);
    let rt = joined(Seq::new(rects.len(), |i: int| json_rect(rects[i])));
    let rj = lemma_rects_say(rects);
    lemma_cursor_says(cur);
    lemma_dec_says(q as nat);
    law_string_reads_back(seq!['d']);
    assert("\"d\""@ =~= json_string(seq!['d'])) by {
        lemma_letter_string('d');
        reveal_strlit("\"d\"");
    }
    let kt = seq!['t'];
    let kc = seq!['c', 'u', 'r'];
    let kr = seq!['r', 'e', 'c', 't', 's'];
    let kq = seq!['q'];
    assert("\"t\":"@ =~= seq!['"'] + kt + seq!['"', ':']) by {
        reveal_strlit("\"t\":");
    }
    assert("\"cur\":"@ =~= seq!['"'] + kc + seq!['"', ':']) by {
        reveal_strlit("\"cur\":");
    }
    assert("\"q\":"@ =~= seq!['"'] + kq + seq!['"', ':']) by {
        reveal_strlit("\"q\":");
    }
    let rq = seq!['"'] + kr + seq!['"', ':'];
    let rv = "["@ + rt + "]"@;
    assert("\"rects\":["@ + (rt + "]"@) =~= rq + rv) by {
        reveal_strlit("\"rects\":[");
        reveal_strlit("[");
    }
    let (a, x) = lemma_none();
    let (a, x) = lemma_more(a, x, true, "\"t\":"@, kt, "\"d\""@, Json::Text(seq!['d']));
    let (a, x) = lemma_more(a, x, true, "\"cur\":"@, kc, json_cursor(cur), cursor_tree(cur));
    let (a, x) = lemma_more(a, x, true, rq, kr, rv, Json::List(rj));
    let (a, x) = lemma_more(a, x, q != 0, "\"q\":"@, kq, dec(q as nat), Json::Num(q as int));
    assert(kt[0] == 't' && kc[0] == 'c' && kr[0] == 'r' && kq[0] == 'q');
    assert(get(x, kt) == Some(Json::Text(seq!['d'])));
    assert(get(x, kc) == Some(cursor_tree(cur)));
    assert(get(x, kr) == Some(Json::List(rj)));
    assert(get(x, kq) == some_if(q != 0, Json::Num(q as int)));
    assert(a =~= msg_fields(m));
    lemma_object(a, x);
    assert(seq!['d'][0] == 'd' && seq!['f'][0] == 'f');
    let back = msg_of(x)->0;
    assert(back->rects =~= rects) by {
        assert forall|i: int| 0 <= i < rects.len() implies back->rects[i] == rects[i] by {
            assert(rect_of(rj[i]) == rects[i]);
        }
    }
    x
}

proof fn lemma_banner_says(m: MsgView) -> (x: Members)
    requires
        m is Banner,
    ensures
        says(json_msg(m), Json::Object(x)),
        msg_of(x) == Some(m),
{
    let html = m->html;
    law_string_reads_back(html);
    law_string_reads_back(seq!['b']);
    assert("\"b\""@ =~= json_string(seq!['b'])) by {
        lemma_letter_string('b');
        reveal_strlit("\"b\"");
    }
    let kt = seq!['t'];
    let kh = seq!['h', 't', 'm', 'l'];
    assert("\"t\":"@ =~= seq!['"'] + kt + seq!['"', ':']) by {
        reveal_strlit("\"t\":");
    }
    assert("\"html\":"@ =~= seq!['"'] + kh + seq!['"', ':']) by {
        reveal_strlit("\"html\":");
    }
    let (a, x) = lemma_none();
    let (a, x) = lemma_more(a, x, true, "\"t\":"@, kt, "\"b\""@, Json::Text(seq!['b']));
    let (a, x) = lemma_more(a, x, true, "\"html\":"@, kh, json_string(html), Json::Text(html));
    assert(kt[0] == 't' && kh[0] == 'h');
    assert(get(x, kt) == Some(Json::Text(seq!['b'])));
    assert(get(x, kh) == Some(Json::Text(html)));
    assert(a =~= msg_fields(m));
    lemma_object(a, x);
    assert(seq!['d'][0] == 'd' && seq!['f'][0] == 'f' && seq!['b'][0] == 'b');
    x
}

/// A message on the wire, read as JSON by the names of its fields, is that message.
pub proof fn law_message_reads_back(m: MsgView)
    requires
        msg_placed(m),
    ensures
        read_msg(json_msg(m)) == Some(m),
{
    let x = match m {
        MsgView::Full { .. } => lemma_full_says(m),
        MsgView::Diff { .. } => lemma_diff_says(m),
        MsgView::Banner { .. } => lemma_banner_says(m),
    };
    lemma_says_whole(json_msg(m), Json::Object(x));
}

} // verus!
