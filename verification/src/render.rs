//! A screen as HTML.
//!
//! Rows are stacked in a box; within a row, neighbouring cells of one style are one element,
//! placed at its column. Symbols with a font of their own, and glyphs that must fill their
//! cell, are scaled into an element of their own.
use crate::config::{texts, Config};
use crate::diff::{json_string, push_joined, push_json_string, text_views};
use crate::fonts::{family_for, generic, is_generic, Override, Resolver};
use crate::model::{row_view, CellView, Color, Grid, GridView, StyledCell};
use crate::proto::PROTOCOL_VERSION;
use crate::sfnt::FontFile;
use crate::text::{
    begins, chars_of, dec, hex2, hex_char, hex_digit, push_dec, push_hex2, replace_text, replaced,
    same_text,
};
use vstd::prelude::*;
use vstd::string::*;

verus! {

/// The default text colour.
pub const DEFAULT_FG: (u8, u8, u8) = (0xd0, 0xd0, 0xd0);

/// The default background.
pub const DEFAULT_BG: (u8, u8, u8) = (0, 0, 0);

/// The built-in page: a document with a place for the styles, the screen and the scripts.
pub const DEFAULT_TEMPLATE: &'static str = "<!doctype html>\n<html lang=\"en\">\n<head>\n<meta charset=\"utf-8\">\n<meta name=\"viewport\" content=\"width=device-width, initial-scale=1\">\n<title>shellglass</title>\n<link rel=\"icon\" href=\"/favicon.svg\">\n{{style}}\n<style>body{background:#111;color:#ccc;font-family:sans-serif}main{padding:1rem}body.crt #screen{filter:contrast(1.1) brightness(1.1)}</style>\n</head>\n<body>\n<nav><label><input type=\"checkbox\" id=\"crt\"> CRT</label></nav>\n<main>{{screen}}</main>\n<script>document.getElementById(\"crt\").addEventListener(\"change\",e=>document.body.classList.toggle(\"crt\",e.target.checked));</script>\n{{script}}\n</body>\n</html>\n";

/// The built-in page for a frame in another page: the screen alone.
pub const EMBED_TEMPLATE: &'static str = "<!doctype html>\n<html lang=\"en\">\n<head>\n<meta charset=\"utf-8\">\n{{style}}\n<style>body{background:#000}.sg-offline{display:none}body[data-offline]:not([data-offline=\\22\\22]) .sg-offline{display:block}</style>\n</head>\n<body>\n{{screen}}\n<div class=\"sg-offline\">offline</div>\n{{script}}\n</body>\n</html>\n";

/// The page's icon.
pub const FAVICON_SVG: &'static str = "<svg xmlns=\"http://www.w3.org/2000/svg\" viewBox=\"0 0 16 16\" role=\"img\" aria-label=\"shellglass\"><rect width=\"16\" height=\"16\" rx=\"3\" fill=\"#111\"/><path d=\"M3 5l3 3-3 3M8 11h5\" stroke=\"#8f8\" stroke-width=\"1.5\" fill=\"none\"/></svg>";

// ---- small pieces ----

/// A number in `k` hexadecimal digits.
pub open spec fn hex_padded(n: nat, k: nat) -> Seq<char>
    decreases k,
{
    if k == 0 {
        Seq::empty()
    } else {
        hex_padded(n / 16, (k - 1) as nat).push(hex_char(n % 16))
    }
}

fn hex_digits(n: u64, k: u8) -> (r: String)
    ensures
        r@ == hex_padded(n as nat, k as nat),
    decreases k,
{
    if k == 0 {
        let r = String::new();
        assert(r@ =~= hex_padded(n as nat, 0));
        r
    } else {
        let mut r = hex_digits(n / 16, k - 1);
        r.push(hex_digit((n % 16) as u8));
        r
    }
}

/// What `std`'s default hasher, with its fixed initial state, makes of a text.
pub uninterp spec fn default_hash(s: Seq<char>) -> u64;

/// `std::hash::BuildHasher::hash_one` with a default `std::hash::DefaultHasher`: the result is
/// [`default_hash`]. All hashers that are made this way are the same; which numbers they give
/// is settled by the release of `std`, and nothing is claimed of it.
#[verifier::external_body]
fn text_hash(s: &str) -> (r: u64)
    ensures
        r == default_hash(s@),
{
    std::hash::BuildHasher::hash_one(
        &std::hash::BuildHasherDefault::<std::hash::DefaultHasher>::default(),
        s,
    )
}

/// A short tag of the page's script: its hash in sixteen digits.
pub fn viewer_tag(js: &str) -> (r: String)
    ensures
        r@ == hex_padded(default_hash(js@) as nat, 16),
{
    tag_of_hash(text_hash(js))
}

/// A hash in sixteen digits.
pub fn tag_of_hash(h: u64) -> (r: String)
    ensures
        r@ == hex_padded(h as nat, 16),
{
    hex_digits(h, 16)
}

/// A character in HTML.
pub open spec fn html_char(c: char) -> Seq<char> {
    if c == '&' {
        "&amp;"@
    } else if c == '<' {
        "&lt;"@
    } else if c == '>' {
        "&gt;"@
    } else {
        seq![c]
    }
}

/// Text in HTML.
pub open spec fn html_escaped(s: Seq<char>) -> Seq<char>
    decreases s.len(),
{
    if s.len() == 0 {
        Seq::empty()
    } else {
        html_escaped(s.drop_last()) + html_char(s.last())
    }
}

/// Append text as HTML.
pub fn escape_into(out: &mut String, s: &str)
    ensures
        final(out)@ == old(out)@ + html_escaped(s@),
{
    let cs = chars_of(s);
    let mut i: usize = 0;
    assert(cs@.take(0) =~= Seq::<char>::empty());
    assert(out@ =~= old(out)@ + html_escaped(cs@.take(0)));
    while i < cs.len()
        invariant
            i <= cs@.len(),
            out@ == old(out)@ + html_escaped(cs@.take(i as int)),
        decreases cs@.len() - i,
    {
        let c = cs[i];
        let ghost before = out@;
        if c == '&' {
            out.append("&amp;");
        } else if c == '<' {
            out.append("&lt;");
        } else if c == '>' {
            out.append("&gt;");
        } else {
            out.push(c);
        }
        assert(out@ =~= before + html_char(c));
        i += 1;
        assert(cs@.take(i as int).drop_last() =~= cs@.take(i - 1));
        assert(out@ =~= old(out)@ + html_escaped(cs@.take(i as int)));
    }
    assert(cs@.take(i as int) =~= cs@);
}

/// A colour in CSS.
pub open spec fn hex_color(c: (u8, u8, u8)) -> Seq<char> {
    "#"@ + hex2(c.0) + hex2(c.1) + hex2(c.2)
}

fn push_hex_color(out: &mut String, c: (u8, u8, u8))
    ensures
        final(out)@ == old(out)@ + hex_color(c),
{
    let mut t = String::from_str("#");
    push_hex2(&mut t, c.0);
    push_hex2(&mut t, c.1);
    push_hex2(&mut t, c.2);
    out.append(t.as_str());
}

/// A character in a quoted CSS name.
pub open spec fn css_char(c: char) -> Seq<char> {
    if c == '\\' {
        "\\\\"@
    } else if c == '\'' {
        "\\'"@
    } else {
        seq![c]
    }
}

/// A name for a single-quoted CSS string.
pub open spec fn css_escaped(s: Seq<char>) -> Seq<char>
    decreases s.len(),
{
    if s.len() == 0 {
        Seq::empty()
    } else {
        css_escaped(s.drop_last()) + css_char(s.last())
    }
}

/// A name for a single-quoted CSS string.
pub fn css_escape_family(s: &str) -> (r: String)
    ensures
        r@ == css_escaped(s@),
{
    let cs = chars_of(s);
    let mut out = String::new();
    let mut i: usize = 0;
    assert(cs@.take(0) =~= Seq::<char>::empty());
    while i < cs.len()
        invariant
            i <= cs@.len(),
            out@ == css_escaped(cs@.take(i as int)),
        decreases cs@.len() - i,
    {
        let c = cs[i];
        let ghost before = out@;
        if c == '\\' {
            out.append("\\\\");
        } else if c == '\'' {
            out.append("\\'");
        } else {
            out.push(c);
        }
        assert(out@ =~= before + css_char(c));
        i += 1;
        assert(cs@.take(i as int).drop_last() =~= cs@.take(i - 1));
    }
    assert(cs@.take(i as int) =~= cs@);
    out
}

/// A family in CSS: quoted, unless it is a generic one.
pub open spec fn quoted_family(f: Seq<char>) -> Seq<char> {
    if is_generic(f) {
        f
    } else {
        "'"@ + css_escaped(f) + "'"@
    }
}

/// A family in CSS.
pub fn quote_family(f: &str) -> (r: String)
    ensures
        r@ == quoted_family(f@),
{
    if generic(f) {
        String::from_str(f)
    } else {
        let mut r = String::from_str("'");
        r.append(css_escape_family(f).as_str());
        r.append("'");
        r
    }
}

/// The quoted families.
pub open spec fn quoted_families(s: Seq<Seq<char>>) -> Seq<Seq<char>> {
    Seq::new(s.len(), |i: int| quoted_family(s[i]))
}

/// The families to try in order, the generic monospace last where it is not among them.
pub open spec fn stack_of(families: Seq<Seq<char>>) -> Seq<char> {
    crate::diff::joined(
        if families.contains("monospace"@) {
            quoted_families(families)
        } else {
            quoted_families(families).push("monospace"@)
        },
    )
}

/// The families to try in order.
pub fn font_stack(config: &Config) -> (r: String)
    ensures
        r@ == stack_of(texts(config.default_font@)),
{
    let ghost all = texts(config.default_font@);
    let mut fams: Vec<String> = Vec::new();
    let mut found = false;
    let mut i: usize = 0;
    while i < config.default_font.len()
        invariant
            i <= config.default_font@.len(),
            all == texts(config.default_font@),
            text_views(fams@) == quoted_families(all).take(i as int),
            found == all.take(i as int).contains("monospace"@),
        decreases config.default_font@.len() - i,
    {
        let f = &config.default_font[i];
        let ghost was = text_views(fams@);
        let q = quote_family(f.as_str());
        fams.push(q);
        let ghost part = all.take(i as int);
        let ghost more = all.take(i + 1);
        let m = same_text(f.as_str(), "monospace");
        proof {
            assert(text_views(fams@) =~= was.push(q@));
            assert(text_views(fams@) =~= quoted_families(all).take(i + 1));
            assert(more =~= part.push(f@));
            if m {
                assert(more[i as int] == "monospace"@);
            }
            if part.contains("monospace"@) {
                let k = choose|k: int| 0 <= k < part.len() && part[k] == "monospace"@;
                assert(more[k] == "monospace"@);
            }
            if more.contains("monospace"@) && !m {
                let k = choose|k: int| 0 <= k < more.len() && more[k] == "monospace"@;
                assert(part[k] == "monospace"@);
            }
        }
        found = found || m;
        i += 1;
    }
    assert(all.take(i as int) =~= all);
    assert(quoted_families(all).take(i as int) =~= quoted_families(all));
    if !found {
        let ghost was = text_views(fams@);
        let m = String::from_str("monospace");
        fams.push(m);
        assert(text_views(fams@) =~= was.push("monospace"@));
    }
    let mut r = String::new();
    push_joined(&mut r, &fams);
    assert(r@ =~= stack_of(all));
    r
}

// ---- the page ----

/// The rule for a served font.
pub open spec fn font_face_rule(
    family: Seq<char>,
    bold: bool,
    prefix: Seq<char>,
    i: nat,
    format: Seq<char>,
) -> Seq<char> {
    "@font-face { font-family:'"@ + css_escaped(family) + "'; font-weight:"@ + (if bold {
        "bold"@
    } else {
        "normal"@
    }) + "; src:url(\""@ + prefix + dec(i) + "\") format('"@ + format + "'); }\n"@
}

/// The rules for the first `n` served fonts.
pub open spec fn font_face_rules(fonts: Seq<FontFile>, prefix: Seq<char>, n: nat) -> Seq<char>
    decreases n,
{
    if n == 0 {
        Seq::empty()
    } else {
        font_face_rules(fonts, prefix, (n - 1) as nat) + font_face_rule(
            fonts[n - 1].family@,
            fonts[n - 1].bold,
            prefix,
            (n - 1) as nat,
            fonts[n - 1].format@,
        )
    }
}

/// The rules for served fonts: each refers to its place in the list.
pub fn font_face_css(fonts: &Vec<FontFile>, url_prefix: &str) -> (r: String)
    ensures
        r@ == font_face_rules(fonts@, url_prefix@, fonts@.len()),
{
    let mut css = String::new();
    let mut i: usize = 0;
    while i < fonts.len()
        invariant
            i <= fonts@.len(),
            css@ == font_face_rules(fonts@, url_prefix@, i as nat),
        decreases fonts@.len() - i,
    {
        let mut rule = String::from_str("@font-face { font-family:'");
        rule.append(css_escape_family(fonts[i].family.as_str()).as_str());
        rule.append("'; font-weight:");
        if fonts[i].bold {
            rule.append("bold");
        } else {
            rule.append("normal");
        }
        rule.append("; src:url(\"");
        rule.append(url_prefix);
        push_dec(&mut rule, i as u64);
        rule.append("\") format('");
        rule.append(fonts[i].format);
        rule.append("'); }\n");
        css.append(rule.as_str());
        i += 1;
    }
    css
}

/// The page's styles: the rules for fonts, and those for the screen. The sizes are in pixels,
/// as text.
pub open spec fn head_style(
    font_css: Seq<char>,
    stack: Seq<char>,
    font_size: Seq<char>,
    line_height: Seq<char>,
) -> Seq<char> {
    font_css + "html,body { margin:0; }\n#screen { font-family:"@ + stack + "; font-size:"@ + font_size
        + "px; --lh:"@ + line_height + "px; line-height:var(--lh); color:"@ + hex_color(DEFAULT_FG)
        + "; background:#000; }\n.screen { position:relative; white-space:pre; overflow:hidden; }\n.row { position:relative; height:var(--lh); }\n.run { position:absolute; top:0; height:var(--lh); overflow:hidden; }\n"@
}

/// The page's styles.
pub fn head_css(font_css: &str, config: &Config, font_size: &str, line_height: &str) -> (r: String)
    ensures
        r@ == head_style(
            font_css@,
            stack_of(texts(config.default_font@)),
            font_size@,
            line_height@,
        ),
{
    let mut r = String::from_str(font_css);
    r.append("html,body { margin:0; }\n#screen { font-family:");
    r.append(font_stack(config).as_str());
    r.append("; font-size:");
    r.append(font_size);
    r.append("px; --lh:");
    r.append(line_height);
    r.append("px; line-height:var(--lh); color:");
    push_hex_color(&mut r, DEFAULT_FG);
    r.append(
        "; background:#000; }\n.screen { position:relative; white-space:pre; overflow:hidden; }\n.row { position:relative; height:var(--lh); }\n.run { position:absolute; top:0; height:var(--lh); overflow:hidden; }\n",
    );
    r
}

/// A template with its places filled: the styles, the scripts, and last the screen, which is
/// not searched for places.
pub open spec fn page_of(
    template: Seq<char>,
    head_css: Seq<char>,
    fragment: Seq<char>,
    script: Seq<char>,
) -> Seq<char> {
    replaced(
        replaced(
            replaced(template, "{{style}}"@, "<style>\n"@ + head_css + "</style>"@),
            "{{script}}"@,
            script,
        ),
        "{{screen}}"@,
        "<div id=\"screen\">"@ + fragment + "</div>"@,
    )
}

/// Fill a template.
pub fn page(template: &str, head_css: &str, fragment: &str, script: &str) -> (r: String)
    ensures
        r@ == page_of(template@, head_css@, fragment@, script@),
{
    proof {
        reveal_strlit("{{style}}");
        reveal_strlit("{{script}}");
        reveal_strlit("{{screen}}");
    }
    let mut style = String::from_str("<style>\n");
    style.append(head_css);
    style.append("</style>");
    let mut screen = String::from_str("<div id=\"screen\">");
    screen.append(fragment);
    screen.append("</div>");
    let a = replace_text(template, "{{style}}", style.as_str());
    let b = replace_text(a.as_str(), "{{script}}", script);
    replace_text(b.as_str(), "{{screen}}", screen.as_str())
}

/// What the screen shows stands in the page as it is, whatever it holds: where the filled
/// template is `a`, the screen's place and `b`, and has no other place for the screen, the
/// page is `a`, the screen and `b`.
pub proof fn law_screen_stands_as_it_is(
    template: Seq<char>,
    head_css: Seq<char>,
    fragment: Seq<char>,
    script: Seq<char>,
    a: Seq<char>,
    b: Seq<char>,
)
    requires
        replaced(
            replaced(template, "{{style}}"@, "<style>\n"@ + head_css + "</style>"@),
            "{{script}}"@,
            script,
        ) == a + "{{screen}}"@ + b,
        forall|i: int|
            0 <= i < a.len() ==> !begins(#[trigger] (a + ("{{screen}}"@ + b)).skip(i), "{{screen}}"@),
        forall|i: int| 0 <= i < b.len() ==> !begins(#[trigger] b.skip(i), "{{screen}}"@),
    ensures
        page_of(template, head_css, fragment, script) == a + ("<div id=\"screen\">"@ + fragment
            + "</div>"@) + b,
{
    let pat = "{{screen}}"@;
    let with = "<div id=\"screen\">"@ + fragment + "</div>"@;
    reveal_strlit("{{screen}}");
    let t = a + (pat + b);
    assert(a + pat + b =~= t);
    crate::text::lemma_replaced_keeps(a, pat + b, pat, with);
    crate::text::lemma_replaced_at_start(b, pat, with);
    let e = Seq::<char>::empty();
    assert(b + e =~= b);
    assert forall|i: int| 0 <= i < b.len() implies !begins(#[trigger] (b + e).skip(i), pat) by {
        assert((b + e).skip(i) =~= b.skip(i));
    }
    crate::text::lemma_replaced_keeps(b, e, pat, with);
    assert(replaced(e, pat, with) == e);
    assert(page_of(template, head_css, fragment, script) =~= a + with + b);
}

/// The scripts of a page: what the viewer is configured with, and the viewer.
pub open spec fn boot_script(events_path: Seq<char>, cfg_json: Seq<char>, tag: Seq<char>) -> Seq<char> {
    "<script>window.SHELLGLASS={events:"@ + json_string(events_path) + ",cfg:"@ + (if cfg_json.len()
        == 0 {
        "null"@
    } else {
        cfg_json
    }) + ",proto:"@ + dec(PROTOCOL_VERSION as nat) + ",js:\""@ + tag
        + "\"};</script>\n<script type=\"module\" src=\"viewer.js?v="@ + tag + "\"></script>"@
}

/// The scripts of a page. `tag` is the viewer's.
pub fn sse_script(events_path: &str, cfg_json: &str, tag: &str) -> (r: String)
    ensures
        r@ == boot_script(events_path@, cfg_json@, tag@),
{
    let mut r = String::from_str("<script>window.SHELLGLASS={events:");
    push_json_string(&mut r, events_path);
    r.append(",cfg:");
    if cfg_json.is_empty() {
        r.append("null");
    } else {
        r.append(cfg_json);
    }
    r.append(",proto:");
    push_dec(&mut r, PROTOCOL_VERSION as u64);
    r.append(",js:\"");
    r.append(tag);
    r.append("\"};</script>\n<script type=\"module\" src=\"viewer.js?v=");
    r.append(tag);
    r.append("\"></script>");
    r
}

/// A local page.
pub fn render_page(
    template: &str,
    fragment: &str,
    font_css: &str,
    config: &Config,
    sizes: (&str, &str),
    cfg_json: &str,
    tag: &str,
) -> (r: String)
    ensures
        r@ == page_of(
            template@,
            head_style(font_css@, stack_of(texts(config.default_font@)), sizes.0@, sizes.1@),
            fragment@,
            boot_script("/events"@, cfg_json@, tag@),
        ),
{
    page(
        template,
        head_css(font_css, config, sizes.0, sizes.1).as_str(),
        fragment,
        sse_script("/events", cfg_json, tag).as_str(),
    )
}

/// An override as the viewer is told of it.
pub open spec fn json_override(e: Override, stack: Seq<char>) -> Seq<char> {
    "["@ + dec(e.lo) + ","@ + dec(e.hi) + ","@ + json_string(
        quoted_family(e.family) + ","@ + stack,
    ) + "]"@
}

/// The overrides as the viewer is told of them.
pub open spec fn json_overrides(entries: Seq<Override>, stack: Seq<char>) -> Seq<Seq<char>> {
    Seq::new(entries.len(), |i: int| json_override(entries[i], stack))
}

/// What the viewer is configured with: the default colours, the families for glyphs that
/// fill their cell, and the overrides.
pub open spec fn json_config(stack: Seq<char>, entries: Seq<Override>) -> Seq<char> {
    "{\"defFg\":"@ + json_string(hex_color(DEFAULT_FG)) + ",\"defBg\":"@ + json_string(
        hex_color(DEFAULT_BG),
    ) + ",\"fillFont\":"@ + json_string(stack) + ",\"sym\":["@ + crate::diff::joined(
        json_overrides(entries, stack),
    ) + "]}"@
}

/// What the viewer is configured with, as JSON.
pub fn render_config_json(config: &Config, resolver: &Resolver) -> (r: String)
    ensures
        r@ == json_config(stack_of(texts(config.default_font@)), resolver@),
{
    let stack = font_stack(config);
    let ghost all = json_overrides(resolver@, stack@);
    let mut items: Vec<String> = Vec::new();
    let mut i: usize = 0;
    while i < resolver.len()
        invariant
            i <= resolver@.len(),
            all == json_overrides(resolver@, stack@),
            text_views(items@) == all.take(i as int),
        decreases resolver@.len() - i,
    {
        let (lo, hi, family) = resolver.entry(i);
        let mut name = quote_family(family);
        name.append(",");
        name.append(stack.as_str());
        let mut t = String::from_str("[");
        push_dec(&mut t, lo as u64);
        t.append(",");
        push_dec(&mut t, hi as u64);
        t.append(",");
        push_json_string(&mut t, name.as_str());
        t.append("]");
        let ghost was = text_views(items@);
        items.push(t);
        assert(text_views(items@) =~= was.push(t@));
        assert(t@ == all[i as int]);
        i += 1;
        assert(text_views(items@) =~= all.take(i as int));
    }
    assert(all.take(i as int) =~= all);
    let mut fg = String::new();
    push_hex_color(&mut fg, DEFAULT_FG);
    assert(fg@ =~= hex_color(DEFAULT_FG));
    let mut bg = String::new();
    push_hex_color(&mut bg, DEFAULT_BG);
    assert(bg@ =~= hex_color(DEFAULT_BG));
    let mut r = String::from_str("{\"defFg\":");
    push_json_string(&mut r, fg.as_str());
    r.append(",\"defBg\":");
    push_json_string(&mut r, bg.as_str());
    r.append(",\"fillFont\":");
    push_json_string(&mut r, stack.as_str());
    r.append(",\"sym\":[");
    push_joined(&mut r, &items);
    r.append("]}");
    r
}

/// A notice in place of the screen.
pub open spec fn banner_html(msg: Seq<char>) -> Seq<char> {
    "<div style=\"color:#ff6b6b;font-family:monospace;padding:8px;\">shellglass: "@ + html_escaped(msg)
        + "</div>"@
}

/// A notice in place of the screen.
pub fn banner(msg: &str) -> (r: String)
    ensures
        r@ == banner_html(msg@),
{
    let mut r = String::from_str(
        "<div style=\"color:#ff6b6b;font-family:monospace;padding:8px;\">shellglass: ",
    );
    escape_into(&mut r, msg);
    r.append("</div>");
    r
}

// ---- cells ----

/// The levels of the colour cube.
pub open spec fn cube_level(i: int) -> u8 {
    if i == 0 {
        0
    } else {
        (55 + 40 * i) as u8
    }
}

/// The first sixteen colours of the palette.
pub const BASE16: [(u8, u8, u8); 16] = [
    (0x00, 0x00, 0x00),
    (0xcd, 0x00, 0x00),
    (0x00, 0xcd, 0x00),
    (0xcd, 0xcd, 0x00),
    (0x00, 0x00, 0xee),
    (0xcd, 0x00, 0xcd),
    (0x00, 0xcd, 0xcd),
    (0xe5, 0xe5, 0xe5),
    (0x7f, 0x7f, 0x7f),
    (0xff, 0x00, 0x00),
    (0x00, 0xff, 0x00),
    (0xff, 0xff, 0x00),
    (0x5c, 0x5c, 0xff),
    (0xff, 0x00, 0xff),
    (0x00, 0xff, 0xff),
    (0xff, 0xff, 0xff),
];

/// The palette of 256 colours: sixteen named ones, a cube of six levels, and greys.
pub open spec fn palette_color(i: u8) -> (u8, u8, u8) {
    if i < 16 {
        BASE16@[i as int]
    } else if i < 232 {
        (cube_level((i - 16) / 36), cube_level((i - 16) / 6 % 6), cube_level((i - 16) % 6))
    } else {
        ((8 + 10 * (i - 232)) as u8, (8 + 10 * (i - 232)) as u8, (8 + 10 * (i - 232)) as u8)
    }
}

fn level(i: u8) -> (r: u8)
    requires
        i < 6,
    ensures
        r == cube_level(i as int),
{
    if i == 0 {
        0
    } else {
        55 + 40 * i
    }
}

/// A colour of the palette.
pub fn palette(i: u8) -> (r: (u8, u8, u8))
    ensures
        r == palette_color(i),
{
    if i < 16 {
        BASE16[i as usize]
    } else if i < 232 {
        let n: u8 = i - 16;
        (level(n / 36), level(n / 6 % 6), level(n % 6))
    } else {
        let v: u8 = 8 + 10 * (i - 232);
        (v, v, v)
    }
}

/// A colour, where it is not the default.
pub open spec fn rgb_of(c: Color) -> Option<(u8, u8, u8)> {
    match c {
        Color::Default => None,
        Color::Idx(i) => Some(palette_color(i)),
        Color::Rgb(r, g, b) => Some((r, g, b)),
    }
}

fn resolve_rgb(c: Color) -> (r: Option<(u8, u8, u8)>)
    ensures
        r == rgb_of(c),
{
    match c {
        Color::Default => None,
        Color::Idx(i) => Some(palette(i)),
        Color::Rgb(r, g, b) => Some((r, g, b)),
    }
}

/// Dimmed by four tenths, in whole tenths.
pub open spec fn dimmed(v: u8) -> u8 {
    (v / 10 * 6) as u8
}

/// A colour, or the default for it.
pub open spec fn or_default(c: Option<(u8, u8, u8)>, d: (u8, u8, u8)) -> (u8, u8, u8) {
    match c {
        Some(x) => x,
        None => d,
    }
}

/// The text colour of a cell. Reverse video, and the cursor on a cell that has none, take the
/// background.
pub open spec fn cell_fg(c: CellView, cursor: bool) -> Option<(u8, u8, u8)> {
    let fg = if c.style.inverse != cursor {
        Some(or_default(rgb_of(c.style.bg), DEFAULT_BG))
    } else {
        rgb_of(c.style.fg)
    };
    if c.style.dim {
        let f = or_default(fg, DEFAULT_FG);
        Some((dimmed(f.0), dimmed(f.1), dimmed(f.2)))
    } else {
        fg
    }
}

/// The background of a cell.
pub open spec fn cell_bg(c: CellView, cursor: bool) -> Option<(u8, u8, u8)> {
    if c.style.inverse != cursor {
        Some(or_default(rgb_of(c.style.fg), DEFAULT_FG))
    } else {
        rgb_of(c.style.bg)
    }
}

/// The style of a cell in CSS.
pub open spec fn box_style(c: CellView, cursor: bool) -> Seq<char> {
    (match cell_fg(c, cursor) {
        Some(x) => "color:"@ + hex_color(x) + ";"@,
        None => Seq::empty(),
    }) + (match cell_bg(c, cursor) {
        Some(x) => "background:"@ + hex_color(x) + ";"@,
        None => Seq::empty(),
    }) + (if c.style.bold {
        "font-weight:bold;"@
    } else {
        Seq::empty()
    }) + (if c.style.italic {
        "font-style:italic;"@
    } else {
        Seq::empty()
    }) + (if c.style.underline != 0 {
        "text-decoration:underline;"@
    } else {
        Seq::empty()
    })
}

/// The style of a cell in CSS; `is_cursor` for the cell under the cursor.
pub fn cell_box_style(c: &StyledCell, is_cursor: bool) -> (r: String)
    ensures
        r@ == box_style(c@, is_cursor),
{
    let mut fg = resolve_rgb(c.fg);
    let mut bg = resolve_rgb(c.bg);
    if c.inverse != is_cursor {
        let f = match fg {
            Some(x) => x,
            None => DEFAULT_FG,
        };
        let b = match bg {
            Some(x) => x,
            None => DEFAULT_BG,
        };
        fg = Some(b);
        bg = Some(f);
    }
    if c.dim {
        let f = match fg {
            Some(x) => x,
            None => DEFAULT_FG,
        };
        fg = Some((f.0 / 10 * 6, f.1 / 10 * 6, f.2 / 10 * 6));
    }
    let mut s = String::new();
    let ghost none = Seq::<char>::empty();
    let ghost mut want = none;
    if let Some(x) = fg {
        s.append("color:");
        push_hex_color(&mut s, x);
        s.append(";");
        proof {
            want = want + ("color:"@ + hex_color(x) + ";"@);
        }
    } else {
        proof {
            want = want + none;
        }
    }
    assert(s@ =~= want);
    if let Some(x) = bg {
        s.append("background:");
        push_hex_color(&mut s, x);
        s.append(";");
        proof {
            want = want + ("background:"@ + hex_color(x) + ";"@);
        }
    }
    assert(s@ =~= want);
    if c.bold {
        s.append("font-weight:bold;");
    }
    if c.italic {
        s.append("font-style:italic;");
    }
    if c.underline != 0 {
        s.append("text-decoration:underline;");
    }
    assert(s@ =~= box_style(c@, is_cursor));
    s
}

/// Whether a glyph must fill its cell: powerline separators, box drawing, block elements and
/// the legacy computing blocks.
pub open spec fn fills_cell(c: char) -> bool {
    ||| 0xe0b0 <= c as u32 <= 0xe0d4
    ||| 0x2500 <= c as u32 <= 0x259f
    ||| 0x1fb00 <= c as u32 <= 0x1fbaf
}

/// Whether a glyph must fill its cell.
pub fn is_fill_glyph(c: char) -> (r: bool)
    ensures
        r == fills_cell(c),
{
    let u: u32 = c as u32;
    (0xe0b0 <= u && u <= 0xe0d4) || (0x2500 <= u && u <= 0x259f) || (0x1fb00 <= u && u <= 0x1fbaf)
}

/// The families for a cell that is scaled on its own: those of an override, or the base ones
/// for a glyph that fills its cell. `None` for plain text.
pub open spec fn symbol_stack(c: CellView, entries: Seq<Override>, stack: Seq<char>) -> Option<
    Seq<char>,
> {
    if c.text.len() == 0 {
        None
    } else {
        match family_for(entries, c.text[0] as nat) {
            Some(f) => Some(quoted_family(f) + ","@ + stack),
            None => if fills_cell(c.text[0]) {
                Some(stack)
            } else {
                None
            },
        }
    }
}

/// The text of an optional string.
pub open spec fn opt_text(s: Option<String>) -> Option<Seq<char>> {
    match s {
        Some(t) => Some(t@),
        None => None,
    }
}

fn svg_font(c: &StyledCell, resolver: &Resolver, stack: &str) -> (r: Option<String>)
    ensures
        opt_text(r) == symbol_stack(c@, resolver@, stack@),
{
    if c.text.as_str().is_empty() {
        return None;
    }
    let first = c.text.as_str().get_char(0);
    match resolver.font_for(first) {
        Some(f) => {
            let mut r = quote_family(f);
            r.append(",");
            r.append(stack);
            Some(r)
        },
        None => if is_fill_glyph(first) {
            Some(String::from_str(stack))
        } else {
            None
        },
    }
}

/// The columns that a cell takes.
pub open spec fn cell_cols(c: CellView) -> int {
    if c.style.wide {
        2
    } else {
        1
    }
}

/// The columns that cells take.
pub open spec fn cols_of(cells: Seq<CellView>) -> int
    decreases cells.len(),
{
    if cells.len() == 0 {
        0
    } else {
        cols_of(cells.drop_last()) + cell_cols(cells.last())
    }
}

/// What a row is drawn from.
pub ghost struct RowView {
    pub cells: Seq<CellView>,
    /// The cursor's column, where it is in the row.
    pub cursor: Option<int>,
    pub entries: Seq<Override>,
    pub stack: Seq<char>,
}

/// Plain text of a cell: a blank shows as a space.
pub open spec fn shown_text(c: CellView) -> Seq<char> {
    if c.text.len() == 0 {
        " "@
    } else {
        c.text
    }
}

impl RowView {
    /// The column of cell `k`.
    pub open spec fn col(self, k: int) -> int {
        cols_of(self.cells.take(k))
    }

    /// Whether the cursor is on cell `k`.
    pub open spec fn under_cursor(self, k: int) -> bool {
        self.cursor == Some(self.col(k))
    }

    /// The style of cell `k`.
    pub open spec fn style(self, k: int) -> Seq<char> {
        box_style(self.cells[k], self.under_cursor(k))
    }

    /// The families for cell `k`, where it is scaled on its own.
    pub open spec fn symbol(self, k: int) -> Option<Seq<char>> {
        symbol_stack(self.cells[k], self.entries, self.stack)
    }

    /// The end of the run of plain cells from `k` on that have the style `style`.
    pub open spec fn run_end(self, k: int, style: Seq<char>) -> int
        decreases self.cells.len() - k,
    {
        if 0 <= k < self.cells.len() && self.symbol(k) is None && self.style(k) == style {
            self.run_end(k + 1, style)
        } else {
            k
        }
    }

    /// The text of the cells from `k` to `e`.
    pub open spec fn run_text(self, k: int, e: int) -> Seq<char>
        decreases e - k,
    {
        if k >= e {
            Seq::empty()
        } else {
            self.run_text(k, e - 1) + html_escaped(shown_text(self.cells[e - 1]))
        }
    }

    /// The element for the cells from `k` to `e`.
    pub open spec fn run_html(self, k: int, e: int) -> Seq<char> {
        "<span class=\"run\" style=\"left:"@ + dec(self.col(k) as nat) + "ch;width:"@ + dec(
            (self.col(e) - self.col(k)) as nat,
        ) + "ch;"@ + self.style(k) + "\">"@ + self.run_text(k, e) + "</span>"@
    }

    /// The element for cell `k`, scaled: a glyph that fills its cell is stretched, another one
    /// fits in.
    pub open spec fn symbol_html(self, k: int, font: Seq<char>) -> Seq<char> {
        "<span class=\"run\" style=\"left:"@ + dec(self.col(k) as nat) + "ch;width:"@ + dec(
            cell_cols(self.cells[k]) as nat,
        ) + "ch;"@ + self.style(k) + "\"><svg viewBox=\"0 0 14 14\" preserveAspectRatio=\""@ + (
        if fills_cell(self.cells[k].text[0]) {
            "none"@
        } else {
            "xMidYMid meet"@
        })
            + "\" style=\"display:block;width:100%;height:100%\"><text x=\"0\" y=\"12\" font-family=\""@
            + font + "\" font-size=\"14\" fill=\"currentColor\">"@ + html_escaped(self.cells[k].text)
            + "</text></svg></span>"@
    }

    /// The row from cell `k` on.
    pub open spec fn html(self, k: int) -> Seq<char>
        decreases self.cells.len() - k,
    {
        if !(0 <= k < self.cells.len()) {
            Seq::empty()
        } else {
            match self.symbol(k) {
                Some(font) => self.symbol_html(k, font) + self.html(k + 1),
                None => {
                    let e = self.run_end(k, self.style(k));
                    if k < e <= self.cells.len() {
                        self.run_html(k, e) + self.html(e)
                    } else {
                        Seq::empty()
                    }
                },
            }
        }
    }
}

/// The columns that the elements of a row cover from cell `k` on.
pub open spec fn drawn_cols(x: RowView, k: int) -> int
    decreases x.cells.len() - k,
{
    if !(0 <= k < x.cells.len()) {
        0
    } else if x.symbol(k) is Some {
        cell_cols(x.cells[k]) + drawn_cols(x, k + 1)
    } else {
        let e = x.run_end(k, x.style(k));
        if k < e <= x.cells.len() {
            x.col(e) - x.col(k) + drawn_cols(x, e)
        } else {
            0
        }
    }
}

/// The elements of a row cover each of its columns once: their widths come to the columns of
/// its cells, from any cell on that begins an element.
pub proof fn law_elements_cover_the_row(x: RowView, k: int)
    requires
        0 <= k <= x.cells.len(),
    ensures
        drawn_cols(x, k) == cols_of(x.cells) - x.col(k),
    decreases x.cells.len() - k,
{
    if k < x.cells.len() {
        lemma_col_step(x, k);
        if x.symbol(k) is Some {
            law_elements_cover_the_row(x, k + 1);
        } else {
            lemma_run_end(x, k, x.style(k));
            lemma_run_end(x, k + 1, x.style(k));
            law_elements_cover_the_row(x, x.run_end(k, x.style(k)));
        }
    } else {
        assert(x.cells.take(k) =~= x.cells);
    }
}

proof fn lemma_run_end(x: RowView, k: int, style: Seq<char>)
    requires
        0 <= k <= x.cells.len(),
    ensures
        k <= x.run_end(k, style) <= x.cells.len(),
    decreases x.cells.len() - k,
{
    if k < x.cells.len() && x.symbol(k) is None && x.style(k) == style {
        lemma_run_end(x, k + 1, style);
    }
}

proof fn lemma_col_step(x: RowView, k: int)
    requires
        0 <= k < x.cells.len(),
    ensures
        x.col(k + 1) == x.col(k) + cell_cols(x.cells[k]),
{
    assert(x.cells.take(k + 1).drop_last() =~= x.cells.take(k));
}

proof fn lemma_col_bound(x: RowView, k: int)
    requires
        0 <= k <= x.cells.len(),
    ensures
        0 <= x.col(k) <= cols_of(x.cells),
    decreases x.cells.len() - k,
{
    if k < x.cells.len() {
        lemma_col_bound(x, k + 1);
        lemma_col_step(x, k);
        lemma_cols_nonneg(x.cells.take(k));
    } else {
        assert(x.cells.take(k) =~= x.cells);
        lemma_cols_nonneg(x.cells);
    }
}

proof fn lemma_cols_nonneg(c: Seq<CellView>)
    ensures
        cols_of(c) >= 0,
    decreases c.len(),
{
    if c.len() > 0 {
        lemma_cols_nonneg(c.drop_last());
    }
}

/// The column in an optional cursor.
pub open spec fn cursor_view(c: Option<u16>) -> Option<int> {
    match c {
        Some(v) => Some(v as int),
        None => None,
    }
}

fn on_cursor(cursor: Option<u16>, col: u16) -> (r: bool)
    ensures
        r == (cursor_view(cursor) == Some(col as int)),
{
    match cursor {
        Some(c) => c == col,
        None => false,
    }
}

fn same_style(c: &StyledCell, cursor: bool, style: &str) -> (r: bool)
    ensures
        r == (box_style(c@, cursor) == style@),
{
    let s = cell_box_style(c, cursor);
    same_text(s.as_str(), style)
}

fn width(c: &StyledCell) -> (r: u16)
    ensures
        r == cell_cols(c@),
{
    if c.wide {
        2
    } else {
        1
    }
}

fn push_symbol(out: &mut String, c: &StyledCell, is_cursor: bool, col: u16, font: &str)
    requires
        c@.text.len() > 0,
    ensures
        forall|x: RowView, k: int|
            x.cells[k] == c@ && x.under_cursor(k) == is_cursor && x.col(k) == col ==> final(out)@
                == old(out)@ + #[trigger] x.symbol_html(k, font@),
{
    let mut t = String::from_str("<span class=\"run\" style=\"left:");
    push_dec(&mut t, col as u64);
    t.append("ch;width:");
    push_dec(&mut t, width(c) as u64);
    t.append("ch;");
    t.append(cell_box_style(c, is_cursor).as_str());
    t.append("\"><svg viewBox=\"0 0 14 14\" preserveAspectRatio=\"");
    if is_fill_glyph(c.text.as_str().get_char(0)) {
        t.append("none");
    } else {
        t.append("xMidYMid meet");
    }
    t.append(
        "\" style=\"display:block;width:100%;height:100%\"><text x=\"0\" y=\"12\" font-family=\"",
    );
    t.append(font);
    t.append("\" font-size=\"14\" fill=\"currentColor\">");
    escape_into(&mut t, c.text.as_str());
    t.append("</text></svg></span>");
    out.append(t.as_str());
}

fn push_run(out: &mut String, col: u16, cols: u16, style: &str, text: &str)
    ensures
        forall|x: RowView, k: int, e: int|
            x.col(k) == col && x.col(e) - x.col(k) == cols && x.style(k) == style@ && x.run_text(k, e)
                == text@ ==> final(out)@ == old(out)@ + #[trigger] x.run_html(k, e),
{
    let mut t = String::from_str("<span class=\"run\" style=\"left:");
    push_dec(&mut t, col as u64);
    t.append("ch;width:");
    push_dec(&mut t, cols as u64);
    t.append("ch;");
    t.append(style);
    t.append("\">");
    t.append(text);
    t.append("</span>");
    out.append(t.as_str());
}

/// Append a row.
fn render_row(
    out: &mut String,
    row: &Vec<StyledCell>,
    cursor: Option<u16>,
    resolver: &Resolver,
    stack: &str,
)
    requires
        cols_of(row_view(row@)) <= u16::MAX,
    ensures
        final(out)@ == old(out)@ + (RowView {
            cells: row_view(row@),
            cursor: cursor_view(cursor),
            entries: resolver@,
            stack: stack@,
        }).html(0),
{
    let ghost x = RowView {
        cells: row_view(row@),
        cursor: cursor_view(cursor),
        entries: resolver@,
        stack: stack@,
    };
    let mut k: usize = 0;
    let mut col: u16 = 0;
    assert(x.cells.take(0) =~= Seq::<CellView>::empty());
    while k < row.len()
        invariant
            k <= row@.len(),
            x == (RowView {
                cells: row_view(row@),
                cursor: cursor_view(cursor),
                entries: resolver@,
                stack: stack@,
            }),
            cols_of(x.cells) <= u16::MAX,
            col == x.col(k as int),
            out@ + x.html(k as int) == old(out)@ + x.html(0),
        decreases row@.len() - k,
    {
        let ghost before = out@;
        let ghost k0 = k as int;
        assert(x.cells[k0] == row@[k0]@);
        let is_cursor = on_cursor(cursor, col);
        proof {
            lemma_col_step(x, k0);
            lemma_col_bound(x, k0 + 1);
        }
        match svg_font(&row[k], resolver, stack) {
            Some(font) => {
                push_symbol(out, &row[k], is_cursor, col, font.as_str());
                assert(out@ == before + x.symbol_html(k0, font@));
                assert(out@ + x.html(k0 + 1) =~= before + x.html(k0));
                col = col + width(&row[k]);
                k += 1;
            },
            None => {
                let style = cell_box_style(&row[k], is_cursor);
                let start: u16 = col;
                let mut text = String::new();
                proof {
                    lemma_run_end(x, k0, style@);
                    lemma_run_end(x, k0 + 1, style@);
                }
                assert(text@ =~= x.run_text(k0, k0));
                let mut more = true;
                while more && k < row.len()
                    invariant
                        k0 <= k <= row@.len(),
                        x == (RowView {
                            cells: row_view(row@),
                            cursor: cursor_view(cursor),
                            entries: resolver@,
                            stack: stack@,
                        }),
                        cols_of(x.cells) <= u16::MAX,
                        col == x.col(k as int),
                        text@ == x.run_text(k0, k as int),
                        x.run_end(k0, style@) == x.run_end(k as int, style@),
                        !more ==> x.run_end(k0, style@) == k,
                    decreases row@.len() - k + (if more { 1int } else { 0int }),
                {
                    assert(x.cells[k as int] == row@[k as int]@);
                    let here = on_cursor(cursor, col);
                    let plain = svg_font(&row[k], resolver, stack).is_none();
                    if plain && same_style(&row[k], here, style.as_str()) {
                        proof {
                            lemma_col_step(x, k as int);
                            lemma_col_bound(x, k + 1);
                        }
                        if row[k].text.as_str().is_empty() {
                            escape_into(&mut text, " ");
                        } else {
                            escape_into(&mut text, row[k].text.as_str());
                        }
                        col = col + width(&row[k]);
                        k += 1;
                    } else {
                        more = false;
                    }
                }
                assert(x.run_end(k0, style@) == k);
                proof {
                    lemma_col_mono(x, k0, k as int);
                }
                push_run(out, start, col - start, style.as_str(), text.as_str());
                assert(out@ == before + x.run_html(k0, k as int));
                assert(out@ + x.html(k as int) =~= before + x.html(k0));
            },
        }
    }
    assert(out@ + x.html(k as int) =~= out@);
}

proof fn lemma_col_mono(x: RowView, a: int, b: int)
    requires
        0 <= a <= b <= x.cells.len(),
    ensures
        x.col(a) <= x.col(b),
    decreases b - a,
{
    if a < b {
        lemma_col_mono(x, a, b - 1);
        lemma_col_step(x, b - 1);
    }
}

/// A row of a screen, as it is drawn.
pub open spec fn grid_row(g: GridView, r: int, entries: Seq<Override>, stack: Seq<char>) -> RowView {
    RowView {
        cells: g.rows[r],
        cursor: match g.cursor {
            Some((row, col)) => if row == r {
                Some(col as int)
            } else {
                None
            },
            None => None,
        },
        entries,
        stack,
    }
}

/// The first `n` rows of a screen.
pub open spec fn rows_html(
    g: GridView,
    entries: Seq<Override>,
    stack: Seq<char>,
    n: nat,
) -> Seq<char>
    decreases n,
{
    if n == 0 {
        Seq::empty()
    } else {
        rows_html(g, entries, stack, (n - 1) as nat) + "<div class=\"row\">"@ + grid_row(
            g,
            n - 1,
            entries,
            stack,
        ).html(0) + "</div>"@
    }
}

/// A screen: a box of its size, and its rows.
pub open spec fn screen_html(g: GridView, entries: Seq<Override>, stack: Seq<char>) -> Seq<char> {
    "<div class=\"screen\" style=\"width:"@ + dec(g.cols as nat) + "ch;height:calc("@ + dec(
        g.rows.len(),
    ) + " * var(--lh));\">"@ + rows_html(g, entries, stack, g.rows.len()) + "</div>"@
}

/// A screen as HTML.
pub fn render_fragment(grid: &Grid, config: &Config, resolver: &Resolver) -> (r: String)
    requires
        forall|i: int| 0 <= i < grid@.rows.len() ==> cols_of(#[trigger] grid@.rows[i]) <= u16::MAX,
    ensures
        r@ == screen_html(grid@, resolver@, stack_of(texts(config.default_font@))),
{
    let stack = font_stack(config);
    let mut out = String::from_str("<div class=\"screen\" style=\"width:");
    push_dec(&mut out, grid.cols as u64);
    out.append("ch;height:calc(");
    push_dec(&mut out, grid.rows.len() as u64);
    out.append(" * var(--lh));\">");
    let ghost head = out@;
    let mut i: usize = 0;
    assert(out@ =~= head + rows_html(grid@, resolver@, stack@, 0));
    while i < grid.rows.len()
        invariant
            i <= grid.rows@.len(),
            forall|j: int|
                0 <= j < grid@.rows.len() ==> cols_of(#[trigger] grid@.rows[j]) <= u16::MAX,
            out@ == head + rows_html(grid@, resolver@, stack@, i as nat),
        decreases grid.rows@.len() - i,
    {
        let cursor: Option<u16> = match grid.cursor {
            Some((r, c)) => if r as usize == i {
                Some(c)
            } else {
                None
            },
            None => None,
        };
        assert(grid@.rows[i as int] == row_view(grid.rows@[i as int]@));
        assert(cols_of(grid@.rows[i as int]) <= u16::MAX);
        let mut row = String::from_str("<div class=\"row\">");
        render_row(&mut row, &grid.rows[i], cursor, resolver, stack.as_str());
        row.append("</div>");
        proof {
            let x = grid_row(grid@, i as int, resolver@, stack@);
            assert(x.cursor == cursor_view(cursor));
        }
        let ghost before = out@;
        out.append(row.as_str());
        i += 1;
        assert(out@ =~= head + rows_html(grid@, resolver@, stack@, i as nat));
    }
    out.append("</div>");
    out
}

} // verus!
