//! User configuration.
use vstd::prelude::*;
use vstd::string::*;

verus! {

/// A font override for ranges of characters.
#[derive(Debug)]
pub struct SymbolMap {
    /// Such as `U+E0A0-U+E0D4` or `U+F000`.
    pub ranges: Vec<String>,
    /// The font's family.
    pub font: String,
}

/// Where a font comes from: a file, or a family that is looked up under another name.
#[derive(Debug)]
pub struct FontSource {
    pub path: Option<String>,
    pub system: Option<String>,
}

/// The family that symbol glyphs are taken from by default.
pub const DEFAULT_SYMBOL_FONT: &'static str = "Symbols Nerd Font Mono";

/// What is configured, apart from the sizes in pixels.
#[derive(Debug)]
pub struct Config {
    /// Families, tried in order for each character.
    pub default_font: Vec<String>,
    /// Overrides; the first that matches wins.
    pub symbol_map: Vec<SymbolMap>,
    /// Where the named families come from.
    pub fonts: Vec<(String, FontSource)>,
    /// The file of the page's template; the built-in one where there is none.
    pub template: Option<String>,
}

/// The models of texts.
pub open spec fn texts(s: Seq<String>) -> Seq<Seq<char>> {
    Seq::new(s.len(), |i: int| s[i]@)
}

/// The default families.
pub open spec fn default_families() -> Seq<Seq<char>> {
    seq!["monospace"@, DEFAULT_SYMBOL_FONT@]
}

fn default_font() -> (r: Vec<String>)
    ensures
        texts(r@) == default_families(),
{
    let mut v: Vec<String> = Vec::new();
    v.push(String::from_str("monospace"));
    v.push(String::from_str(DEFAULT_SYMBOL_FONT));
    assert(texts(v@) =~= default_families());
    v
}

impl Default for Config {
    fn default() -> (r: Self)
        ensures
            texts(r.default_font@) == default_families(),
            r.symbol_map@.len() == 0,
            r.fonts@.len() == 0,
            r.template is None,
    {
        Config {
            default_font: default_font(),
            symbol_map: Vec::new(),
            fonts: Vec::new(),
            template: None,
        }
    }
}

/// One family, or several.
pub enum OneOrMany {
    One(String),
    Many(Vec<String>),
}

/// The families that a setting names.
pub fn string_or_vec(v: OneOrMany) -> (r: Vec<String>)
    ensures
        texts(r@) == (match v {
            OneOrMany::One(s) => seq![s@],
            OneOrMany::Many(m) => texts(m@),
        }),
{
    match v {
        OneOrMany::One(s) => {
            let mut r: Vec<String> = Vec::new();
            r.push(s);
            assert(texts(r@) =~= seq![s@]);
            r
        },
        OneOrMany::Many(m) => m,
    }
}

} // verus!
