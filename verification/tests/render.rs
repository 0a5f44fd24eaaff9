//! Pages and fragments.
use shellglass::config::{Config, FontSource, SymbolMap};
use shellglass::fonts::Resolver;
use shellglass::model::{Color, Grid, StyledCell};
use shellglass::parse::grid_from_capture;
use shellglass::render::{
    banner, cell_box_style, css_escape_family, escape_into, font_face_css, font_stack, head_css,
    is_fill_glyph, page, palette, quote_family, render_config_json, render_fragment, render_page,
    sse_script, tag_of_hash, viewer_tag, DEFAULT_TEMPLATE, EMBED_TEMPLATE, FAVICON_SVG,
};
use shellglass::sfnt::FontFile;
use std::hash::{DefaultHasher, Hash, Hasher};

fn grid_from(cap: &str, w: u16, h: u16) -> Grid {
    let mut grid = grid_from_capture(cap, w, h);
    grid.cursor = None; // these tests check cell styling, not cursor rendering
    grid
}

#[test]
fn colors_and_bold_render() {
    let cfg = Config::default();
    let res = Resolver::build(&cfg).unwrap();
    let html = render_fragment(&grid_from("\x1b[1;31mA\x1b[0mB", 4, 1), &cfg, &res);
    assert!(html.contains("font-weight:bold;"), "bold missing: {html}");
    assert!(html.contains("color:#cd0000;"), "red missing: {html}");
    assert!(html.contains(">A</span>"));
}

#[test]
fn symbol_map_overrides_font() {
    let mut cfg = Config::default();
    cfg.default_font = vec!["Menlo".into()];
    cfg.symbol_map = vec![SymbolMap {
        ranges: vec!["U+E0A0-U+E0D4".into()],
        font: "Symbols Nerd Font".into(),
    }];
    let res = Resolver::build(&cfg).unwrap();
    // U+E0A0 (Powerline branch) is an icon-like glyph -> SVG, proportional fit.
    let html = render_fragment(&grid_from("\u{E0A0}", 2, 1), &cfg, &res);
    assert!(
        html.contains("font-family=\"'Symbols Nerd Font','Menlo',monospace\""),
        "override font missing: {html}"
    );
    assert!(
        html.contains("preserveAspectRatio=\"xMidYMid meet\""),
        "icon glyph should fit proportionally: {html}"
    );
}

#[test]
fn glyph_locked_to_one_cell() {
    // A powerline glyph must occupy exactly a 1ch box so the rest of the
    // line keeps its columns (this is what fixes right-aligned segments).
    let mut cfg = Config::default();
    cfg.symbol_map = vec![SymbolMap {
        ranges: vec!["U+E0B0".into()],
        font: "Symbols Nerd Font Mono".into(),
    }];
    let res = Resolver::build(&cfg).unwrap();
    // glyph + "ab", padded to 10 columns.
    let html = render_fragment(&grid_from("\u{E0B0}ab", 10, 1), &cfg, &res);
    // The glyph is a 1ch box holding a stretch-to-fill SVG (E0B0 is a separator)...
    assert!(
        html.contains("<span class=\"run\" style=\"left:0ch;width:1ch;\"><svg viewBox=\"0 0 14 14\" preserveAspectRatio=\"none\""),
        "separator glyph not stretch-filled in a 1ch box: {html}"
    );
    // ...and the run widths across the row sum to exactly the 10 columns, so
    // the glyph's real advance can't shift anything after it.
    let row = html.split("<div class=\"row\">").nth(1).unwrap();
    let sum: u16 = row
        .split("width:")
        .skip(1)
        .filter_map(|s| s.split("ch").next()?.parse::<u16>().ok())
        .sum();
    assert_eq!(sum, 10, "run widths don't tile the row: {html}");
}

#[test]
fn box_drawing_divider_stretch_fills() {
    // A tmux pane divider is a column of `│` (U+2502). Rendered as plain text
    // it gaps vertically under line-height > 1; it must go through the same
    // stretch-to-fill SVG path as powerline separators so it reads solid.
    let cfg = Config::default();
    let res = Resolver::build(&cfg).unwrap();
    let html = render_fragment(&grid_from("\u{2502}", 2, 1), &cfg, &res);
    assert!(
        html.contains("preserveAspectRatio=\"none\""),
        "box-drawing divider not stretch-filled: {html}"
    );
    // A legacy-computing sextant (U+1FB00) tiles like a block element too.
    let sextant = render_fragment(&grid_from("\u{1FB00}", 2, 1), &cfg, &res);
    assert!(
        sextant.contains("preserveAspectRatio=\"none\""),
        "legacy sextant not stretch-filled: {sextant}"
    );
}

#[test]
fn runs_are_positioned_at_their_column() {
    // Each run's `left` is its absolute column, not its flow position — so a
    // column (e.g. a divider) lands at the same x on every row regardless of
    // what precedes it. Here `ab│` puts the divider at column 2.
    let cfg = Config::default();
    let res = Resolver::build(&cfg).unwrap();
    let html = render_fragment(&grid_from("ab\u{2502}", 5, 1), &cfg, &res);
    assert!(
        html.contains("style=\"left:0ch;width:2ch;"),
        "leading text run not at column 0: {html}"
    );
    assert!(
        html.contains("style=\"left:2ch;width:1ch;"),
        "divider not positioned at its column: {html}"
    );
}

#[test]
fn font_list_becomes_a_css_fallback_stack() {
    // A multi-family default_font emits every family in order (browser does
    // per-glyph fallback), with monospace appended as last resort.
    let mut cfg = Config::default();
    cfg.default_font = vec!["Menlo".into(), "Symbols Nerd Font Mono".into()];
    let css = head_css("", &cfg, "14", "1.2");
    assert!(
        css.contains("font-family:'Menlo','Symbols Nerd Font Mono',monospace;"),
        "font stack missing/ordered wrong: {css}"
    );
}

#[test]
fn powerline_separator_svg_scaled_without_symbol_map() {
    // With no symbol_map (the default fallback setup), a fill separator must
    // still go through the stretch-to-fill SVG path — otherwise its glyph is
    // clipped to a block. It renders in a 1ch box with a base fallback stack.
    let cfg = Config::default();
    let res = Resolver::build(&cfg).unwrap();
    let html = render_fragment(&grid_from("\u{E0B0}", 2, 1), &cfg, &res);
    assert!(
        html.contains("preserveAspectRatio=\"none\""),
        "separator not SVG stretch-filled: {html}"
    );
    assert!(
        html.contains("<svg viewBox=\"0 0 14 14\""),
        "no SVG glyph box: {html}"
    );
    // A plain letter next to it stays plain text (not SVG).
    let plain = render_fragment(&grid_from("a", 2, 1), &cfg, &res);
    assert!(
        !plain.contains("<svg"),
        "plain text should not be SVG: {plain}"
    );
}

#[test]
fn page_fills_template_tokens() {
    let tmpl = "<head>{{style}}</head><body>{{screen}}{{script}}</body>";
    // Fragment contains a literal token the user "typed" — it must survive
    // verbatim (screen is filled last and never re-scanned).
    let html = page(tmpl, "CSS", "hi {{script}} there", "<script>JS</script>");
    assert!(html.contains("<style>\nCSS</style>"), "{html}");
    assert!(
        html.contains("<div id=\"screen\">hi {{script}} there</div>"),
        "{html}"
    );
    // The script block is injected raw (it carries its own <script> tags).
    assert!(html.contains("<script>JS</script>"), "{html}");
    // The typed {{script}} token in the fragment was NOT expanded into a script.
    assert_eq!(
        html.matches("<script>").count(),
        1,
        "typed token got expanded: {html}"
    );
}

#[test]
fn builtin_template_has_all_tokens() {
    for tok in ["{{style}}", "{{screen}}", "{{script}}"] {
        assert!(DEFAULT_TEMPLATE.contains(tok), "template missing {tok}");
    }
    // The CRT toggle ships off: effects only when the viewer opts in.
    assert!(
        DEFAULT_TEMPLATE.contains("id=\"crt\">"),
        "CRT checkbox must not default to checked"
    );
    // The favicon link points at the served route, and the asset is baked in.
    assert!(
        DEFAULT_TEMPLATE.contains(r#"href="/favicon.svg""#),
        "template must link the favicon route"
    );
    assert!(
        FAVICON_SVG.starts_with("<svg") && FAVICON_SVG.contains("aria-label=\"shellglass\""),
        "baked favicon must be the shellglass SVG"
    );
}

#[test]
fn font_face_css_references_served_urls() {
    let fonts = vec![FontFile {
        family: "NF".into(),
        mime: "font/ttf",
        format: "truetype",
        bytes: vec![1, 2],
        bold: false,
    }];
    let css = font_face_css(&fonts, "/s/abc/fonts/");
    assert!(css.contains("font-family:'NF'"), "{css}");
    assert!(
        css.contains("src:url(\"/s/abc/fonts/0\") format('truetype')"),
        "{css}"
    );
}

#[test]
fn dim_matches_the_shared_floor_formula() {
    // The integer math: f/10*6 floors. 0xd0=208 → 120 = 0x78.
    let mut c = StyledCell::default();
    c.dim = true;
    assert_eq!(cell_box_style(&c, false), "color:#787878;");
    c.fg = Color::Idx(9); // bright red 255 → 25*6 = 150 = 0x96
    assert_eq!(cell_box_style(&c, false), "color:#960000;");
}

#[test]
fn fragment_sizes_the_screen_box() {
    let cfg = Config::default();
    let res = Resolver::build(&cfg).unwrap();
    let html = render_fragment(&grid_from("ab", 5, 1), &cfg, &res);
    assert!(
        html.starts_with(
            "<div class=\"screen\" style=\"width:5ch;height:calc(1 * var(--lh));\">"
        ),
        "screen box not sized: {html}"
    );
    assert!(html.contains("<div class=\"row\">"), "no row: {html}");
}

#[test]
fn the_palette_has_its_base_its_cube_and_its_grays() {
    assert_eq!(palette(1), (0xcd, 0, 0));
    assert_eq!(palette(16), (0, 0, 0));
    assert_eq!(palette(16 + 36), (95, 0, 0));
    assert_eq!(palette(231), (255, 255, 255));
    assert_eq!(palette(232), (8, 8, 8));
    assert_eq!(palette(255), (238, 238, 238));
}

#[test]
fn text_is_escaped() {
    let mut s = String::new();
    escape_into(&mut s, "a<b>&\"c");
    assert_eq!(s, "a&lt;b&gt;&amp;\"c");
    assert!(banner("a < b & c").contains("a &lt; b &amp; c"));
}

#[test]
fn families_are_quoted_for_css() {
    assert_eq!(quote_family("monospace"), "monospace");
    assert_eq!(quote_family("Menlo"), "'Menlo'");
    assert_eq!(css_escape_family("a'b\\"), "a\\'b\\\\");
    let mut cfg = Config::default();
    cfg.default_font = vec!["Menlo".into(), "monospace".into()];
    assert_eq!(font_stack(&cfg), "'Menlo',monospace");
}

#[test]
fn separators_fill_their_cell_and_letters_do_not() {
    assert!(is_fill_glyph('\u{E0B0}'));
    assert!(is_fill_glyph('\u{2502}'));
    assert!(is_fill_glyph('\u{2588}'));
    assert!(!is_fill_glyph('a'));
    assert!(!is_fill_glyph('\u{E0A0}'));
}

#[test]
fn a_page_holds_its_parts() {
    let cfg = Config::default();
    let res = Resolver::build(&cfg).unwrap();
    let fragment = render_fragment(&grid_from("hi", 4, 1), &cfg, &res);
    let json = render_config_json(&cfg, &res);
    let html = render_page(
        DEFAULT_TEMPLATE,
        &fragment,
        "FACES",
        &cfg,
        ("14", "1.2"),
        &json,
        "TAG",
    );
    assert!(html.contains(&fragment), "{html}");
    assert!(html.contains("FACES"), "{html}");
    assert!(html.contains(&sse_script("/events", &json, "TAG")), "{html}");
    for tok in ["{{style}}", "{{screen}}", "{{script}}"] {
        assert!(EMBED_TEMPLATE.contains(tok), "template missing {tok}");
    }
}

#[test]
fn the_viewer_tag_follows_the_script() {
    assert_eq!(viewer_tag("a"), viewer_tag("a"));
    assert_ne!(viewer_tag("a"), viewer_tag("b"));
    let mut h = DefaultHasher::new();
    "a".hash(&mut h);
    assert_eq!(viewer_tag("a"), format!("{:016x}", h.finish()));
    assert_eq!(tag_of_hash(0xab), "00000000000000ab");
}

#[test]
fn the_cursor_is_drawn_inverse() {
    let c = StyledCell { text: "x".into(), ..StyledCell::default() };
    assert_eq!(cell_box_style(&c, true), "color:#000000;background:#d0d0d0;");
    assert_eq!(cell_box_style(&c, false), "");
}

#[test]
fn the_config_of_a_viewer_is_json() {
    let mut cfg = Config::default();
    cfg.default_font = vec!["Menlo".into()];
    cfg.symbol_map =
        vec![SymbolMap { ranges: vec!["U+E0A0-U+E0A2".into()], font: "NF".into() }];
    cfg.fonts = vec![("NF".into(), FontSource { path: None, system: None })];
    let res = Resolver::build(&cfg).unwrap();
    assert_eq!(
        render_config_json(&cfg, &res),
        "{\"defFg\":\"#d0d0d0\",\"defBg\":\"#000000\",\"fillFont\":\"'Menlo',monospace\",\
         \"sym\":[[57504,57506,\"'NF','Menlo',monospace\"]]}"
    );
}
