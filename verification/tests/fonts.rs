//! Which fonts a screen needs, and single faces of font files.
use shellglass::config::{string_or_vec, Config, OneOrMany, SymbolMap, DEFAULT_SYMBOL_FONT};
use shellglass::fonts::{
    concrete_generic, family_installed, first_family, generic, names_match, parse_range,
    referenced_families, resolve_generics, Resolver,
};
use shellglass::sfnt::{load_font, mime_for, sfnt_checksum, sfnt_face};

fn read_u32(d: &[u8], at: usize) -> Option<u32> {
    let b = d.get(at..at + 4)?;
    Some(u32::from_be_bytes([b[0], b[1], b[2], b[3]]))
}

#[test]
fn referenced_families_dedupe_and_drop_generics() {
    let mut cfg = Config::default();
    cfg.default_font = vec!["monospace".into(), "Menlo".into()];
    cfg.symbol_map = vec![
        SymbolMap { ranges: vec!["U+E0B0".into()], font: "Menlo".into() }, // dup
        SymbolMap { ranges: vec!["U+F000".into()], font: "NF".into() },
    ];
    // monospace dropped (generic); Menlo appears once despite two references.
    assert_eq!(referenced_families(&cfg), vec!["Menlo".to_string(), "NF".to_string()]);
}

#[test]
fn extracts_single_face_from_ttc() {
    // Build a 1-face TTC with a 'head' (≥12 bytes) and a 'cmap', extract face 0,
    // and confirm both tables survive and the head checksum is made valid.
    let head = vec![0u8; 54];
    let cmap = vec![1u8, 2, 3, 4, 5];
    let tables: [(&[u8; 4], &[u8]); 2] = [(b"head", &head), (b"cmap", &cmap)];
    let ttc = build_ttc(b"\x00\x01\x00\x00", &tables);

    let (out, format) = sfnt_face(&ttc, 0).expect("extract face 0");
    assert_eq!(format, "truetype");
    assert!(sfnt_face(&ttc, 1).is_none(), "only one face exists");

    let n = u16::from_be_bytes([out[4], out[5]]) as usize;
    assert_eq!(n, 2);
    let table = |tag: &[u8; 4]| -> Vec<u8> {
        for i in 0..n {
            let rec = 12 + i * 16;
            if &out[rec..rec + 4] == tag {
                let off = read_u32(&out, rec + 8).unwrap() as usize;
                let len = read_u32(&out, rec + 12).unwrap() as usize;
                return out[off..off + len].to_vec();
            }
        }
        panic!("table {tag:?} missing from extracted sfnt");
    };
    assert_eq!(table(b"cmap"), cmap);
    assert_eq!(table(b"head").len(), 54);
    // With checkSumAdjustment applied, the whole file sums to the magic constant.
    assert_eq!(sfnt_checksum(&out), 0xB1B0_AFBA, "head checkSumAdjustment wrong");
}

/// Lay out a single-face TTC with table offsets absolute from file start.
fn build_ttc(version: &[u8; 4], tables: &[(&[u8; 4], &[u8])]) -> Vec<u8> {
    let n = tables.len();
    let dir_off = 16usize; // 'ttcf' + version + numFonts + one face offset
    let mut sfnt = Vec::new();
    sfnt.extend_from_slice(version);
    sfnt.extend_from_slice(&(n as u16).to_be_bytes());
    sfnt.extend_from_slice(&[0u8; 6]); // search params (ignored by reader)
    let rec_start = sfnt.len();
    sfnt.resize(rec_start + n * 16, 0);
    for (i, (tag, body)) in tables.iter().enumerate() {
        while (dir_off + sfnt.len()) % 4 != 0 {
            sfnt.push(0);
        }
        let off = (dir_off + sfnt.len()) as u32;
        sfnt.extend_from_slice(body);
        let rec = rec_start + i * 16;
        sfnt[rec..rec + 4].copy_from_slice(*tag);
        sfnt[rec + 8..rec + 12].copy_from_slice(&off.to_be_bytes());
        sfnt[rec + 12..rec + 16].copy_from_slice(&(body.len() as u32).to_be_bytes());
    }
    let mut out = Vec::new();
    out.extend_from_slice(b"ttcf");
    out.extend_from_slice(&0x0001_0000u32.to_be_bytes());
    out.extend_from_slice(&1u32.to_be_bytes());
    out.extend_from_slice(&(dir_off as u32).to_be_bytes());
    out.extend_from_slice(&sfnt);
    out
}

#[test]
fn default_font_accepts_string_or_list() {
    assert_eq!(string_or_vec(OneOrMany::One("Menlo".into())), vec!["Menlo"]);
    assert_eq!(
        string_or_vec(OneOrMany::Many(vec!["Menlo".into(), "NF".into()])),
        vec!["Menlo", "NF"]
    );
    assert_eq!(Config::default().default_font, vec!["monospace", DEFAULT_SYMBOL_FONT]);
}

#[test]
fn ranges_are_read() {
    assert_eq!(parse_range("U+E0B0"), Some((0xe0b0, 0xe0b0)));
    assert_eq!(parse_range("U+E0A0-U+E0D4"), Some((0xe0a0, 0xe0d4)));
    assert_eq!(parse_range("x"), None);
}

#[test]
fn a_bad_range_is_an_error_and_a_good_one_finds_its_font() {
    let mut cfg = Config::default();
    cfg.symbol_map = vec![SymbolMap { ranges: vec!["U+E0A0-U+E0A2".into()], font: "NF".into() }];
    let r = Resolver::build(&cfg).unwrap();
    assert_eq!(r.len(), 1);
    assert_eq!(r.font_for('\u{e0a2}'), Some("NF"));
    assert_eq!(r.font_for('\u{e0a3}'), None);
    cfg.symbol_map[0].ranges.push("nope".into());
    cfg.symbol_map[0].ranges.push("-".into());
    let e = Resolver::build(&cfg).err().unwrap();
    assert_eq!(e.text(), "invalid symbol_map range \"nope\"");
}

#[test]
fn generics_are_replaced_where_one_was_found() {
    let mut cfg = Config::default();
    resolve_generics(&mut cfg, &vec![("monospace".to_string(), Some("DejaVu Sans Mono".to_string()))]);
    assert_eq!(cfg.default_font[0], "DejaVu Sans Mono");
    assert_eq!(cfg.default_font[1], "Symbols Nerd Font Mono");
    let mut cfg = Config::default();
    resolve_generics(&mut cfg, &vec![("monospace".to_string(), None)]);
    assert_eq!(cfg.default_font[0], "monospace");
    assert!(generic("monospace") && !generic("Menlo"));
}

#[test]
fn a_generic_takes_the_first_that_is_installed() {
    let installed = vec!["Foo".to_string(), "Menlo".to_string()];
    assert!(family_installed(&installed, "menlo"));
    assert!(!family_installed(&installed, "Bar"));
    assert!(names_match("MENLO", "menlo"));
    assert_eq!(
        concrete_generic("monospace", Some("Foo".to_string()), &installed),
        Some("Foo".to_string())
    );
    assert_eq!(first_family("DejaVu Sans Mono,Other\n"), Some("DejaVu Sans Mono".to_string()));
    assert_eq!(first_family(""), None);
}

#[test]
fn a_file_that_is_no_font_is_not_loaded() {
    assert!(load_font("X", vec![1, 2, 3]).is_none());
    assert!(sfnt_face(&[], 0).is_none());
    assert_eq!(mime_for("opentype"), "font/otf");
    assert_eq!(mime_for("truetype"), "font/ttf");
    assert_eq!(sfnt_checksum(&[0, 0, 0, 1, 0, 0, 0, 2, 1]), 0x0100_0003);
}
