//! Device-local appearance choices and the resolution of a bundled palette.
//! Unknown or unsupported scheme identities fall back to a safe default
//! instead of failing.
use std::collections::BTreeMap;
use vstd::prelude::*;
use vstd::string::*;

use crate::text::{lowercase, str_eq, to_lowercase};

verus! {

#[derive(Debug, Clone, Copy, PartialEq, Eq, Structural)]
pub enum AppearanceMode {
    Auto,
    Light,
    Dark,
}

#[derive(Debug, Clone, Copy, PartialEq, Eq, Structural)]
pub enum LightContrast {
    Normal,
    Tonal,
    Vivid,
}

#[derive(Debug, Clone, Copy, PartialEq, Eq, Structural)]
pub enum DarkContrast {
    Normal,
    Tonal,
    Black,
}

impl Default for AppearanceMode {
    fn default() -> (r: Self)
        ensures
            r == AppearanceMode::Auto,
    {
        AppearanceMode::Auto
    }
}

impl Default for LightContrast {
    fn default() -> (r: Self)
        ensures
            r == LightContrast::Normal,
    {
        LightContrast::Normal
    }
}

impl Default for DarkContrast {
    fn default() -> (r: Self)
        ensures
            r == DarkContrast::Normal,
    {
        DarkContrast::Normal
    }
}

/// Stable catalog identity. Unknown future IDs round-trip and resolve to a safe default.
#[derive(Debug, Clone)]
pub struct SchemeId(pub String);

impl SchemeId {
    pub fn new(id: &str) -> (r: Self)
        ensures
            r.0@ == id@,
    {
        SchemeId(String::from_str(id))
    }

    pub fn as_str(&self) -> (r: &str)
        ensures
            r@ == self.0@,
    {
        self.0.as_str()
    }
}

#[derive(Debug, Clone)]
pub struct Appearance {
    pub mode: AppearanceMode,
    pub light_scheme: SchemeId,
    pub dark_scheme: SchemeId,
    pub light_contrast: LightContrast,
    pub dark_contrast: DarkContrast,
    pub interface_accent: bool,
    pub scheme_accent: bool,
}

#[derive(Debug, Clone)]
pub struct Scheme {
    pub id: String,
    pub name: String,
    pub modes: Vec<String>,
}

#[derive(Debug, Clone)]
pub struct Palette {
    pub id: String,
    pub mode: String,
    pub contrast: String,
    pub scheme_accent: bool,
    pub content: BTreeMap<String, String>,
    pub chrome: BTreeMap<String, String>,
}

#[derive(Debug, Clone)]
pub struct Catalog {
    pub revision: String,
    pub schemes: Vec<Scheme>,
    pub palettes: Vec<Palette>,
}

/// The light scheme chosen when nothing else is known or supported.
pub open spec fn default_light() -> Seq<char> {
    "sanctum"@
}

/// The dark scheme chosen when nothing else is known or supported.
pub open spec fn default_dark() -> Seq<char> {
    "notion"@
}

pub open spec fn mode_name(dark: bool) -> Seq<char> {
    if dark {
        "dark"@
    } else {
        "light"@
    }
}

pub open spec fn contrast_name(a: Appearance, dark: bool) -> Seq<char> {
    if dark {
        match a.dark_contrast {
            DarkContrast::Normal => "normal"@,
            DarkContrast::Tonal => "tonal"@,
            DarkContrast::Black => "black"@,
        }
    } else {
        match a.light_contrast {
            LightContrast::Normal => "normal"@,
            LightContrast::Tonal => "tonal"@,
            LightContrast::Vivid => "vivid"@,
        }
    }
}

/// The appearance is dark: `Auto` follows the system, the other modes are fixed.
pub open spec fn spec_is_dark(a: Appearance, system_dark: bool) -> bool {
    match a.mode {
        AppearanceMode::Auto => system_dark,
        AppearanceMode::Light => false,
        AppearanceMode::Dark => true,
    }
}

/// The catalog lists scheme `id` as available in `mode`.
pub open spec fn supports(c: Catalog, id: Seq<char>, mode: Seq<char>) -> bool {
    exists|i: int, j: int|
        0 <= i < c.schemes.len() && 0 <= j < c.schemes[i].modes.len() && c.schemes[i].id@ == id
            && #[trigger] c.schemes[i].modes[j]@ == mode
}

/// The scheme whose palette is shown: the chosen one where the catalog supports it in the
/// current mode, otherwise the default of that mode.
pub open spec fn resolved_scheme(a: Appearance, c: Catalog, system_dark: bool) -> Seq<char> {
    let dark = spec_is_dark(a, system_dark);
    let chosen = if dark {
        a.dark_scheme.0@
    } else {
        a.light_scheme.0@
    };
    if supports(c, chosen, mode_name(dark)) {
        chosen
    } else if dark {
        default_dark()
    } else {
        default_light()
    }
}

/// Palette `p` is the one for this appearance.
pub open spec fn palette_fits(p: Palette, a: Appearance, c: Catalog, system_dark: bool) -> bool {
    let dark = spec_is_dark(a, system_dark);
    &&& p.id@ == resolved_scheme(a, c, system_dark)
    &&& p.mode@ == mode_name(dark)
    &&& p.contrast@ == contrast_name(a, dark)
    &&& p.scheme_accent == a.scheme_accent
}

/// The catalog holds a palette for this appearance.
pub open spec fn resolves(a: Appearance, c: Catalog, system_dark: bool) -> bool {
    exists|i: int| 0 <= i < c.palettes.len() && palette_fits(#[trigger] c.palettes[i], a, c, system_dark)
}

/// What an old theme name chose: the mode and the scheme that replaces it.
pub open spec fn legacy_choice(key: Seq<char>) -> (AppearanceMode, Seq<char>) {
    if key == "light"@ {
        (AppearanceMode::Light, "sanctum"@)
    } else if key == "dark"@ {
        (AppearanceMode::Dark, "notion"@)
    } else if key == "catppuccin latte"@ {
        (AppearanceMode::Light, "latte"@)
    } else if key == "solarized light"@ {
        (AppearanceMode::Light, "solarized"@)
    } else if key == "catppuccin mocha"@ {
        (AppearanceMode::Dark, "mocha"@)
    } else if key == "dracula"@ {
        (AppearanceMode::Dark, "dracula"@)
    } else if key == "gruvbox dark"@ {
        (AppearanceMode::Dark, "gruvbox"@)
    } else if key == "nord"@ {
        (AppearanceMode::Dark, "nord"@)
    } else if key == "ros\u{e9} pine"@ || key == "rose pine"@ {
        (AppearanceMode::Dark, "rose-pine"@)
    } else if key == "tokyo night"@ {
        (AppearanceMode::Dark, "notion"@)
    } else {
        (AppearanceMode::Auto, ""@)
    }
}

/// The default appearance: automatic mode, Sanctum and Notion, normal contrast, both accents.
pub open spec fn is_default_appearance(a: Appearance) -> bool {
    &&& a.mode == AppearanceMode::Auto
    &&& a.light_scheme.0@ == default_light()
    &&& a.dark_scheme.0@ == default_dark()
    &&& a.light_contrast == LightContrast::Normal
    &&& a.dark_contrast == DarkContrast::Normal
    &&& a.interface_accent
    &&& a.scheme_accent
}

/// The appearance an already lowercased legacy theme name stands for: the default,
/// with the mode of the name and, for a fixed mode, its scheme in that mode's slot.
pub open spec fn legacy_appearance(r: Appearance, key: Seq<char>) -> bool {
    let (mode, id) = legacy_choice(key);
    &&& r.mode == mode
    &&& r.light_scheme.0@ == (if mode == AppearanceMode::Light { id } else { default_light() })
    &&& r.dark_scheme.0@ == (if mode == AppearanceMode::Dark { id } else { default_dark() })
    &&& r.light_contrast == LightContrast::Normal
    &&& r.dark_contrast == DarkContrast::Normal
    &&& r.interface_accent
    &&& r.scheme_accent
}

/// Two appearances hold the same choices.
pub open spec fn appearance_same(a: Appearance, b: Appearance) -> bool {
    &&& a.mode == b.mode
    &&& a.light_scheme.0@ == b.light_scheme.0@
    &&& a.dark_scheme.0@ == b.dark_scheme.0@
    &&& a.light_contrast == b.light_contrast
    &&& a.dark_contrast == b.dark_contrast
    &&& a.interface_accent == b.interface_accent
    &&& a.scheme_accent == b.scheme_accent
}

/// Legacy theme names choose by their lowercase form alone: names with the same lowercase
/// form give the same appearance, a name that is no known legacy name gives the default,
/// and any name keeps the default contrasts, accents and the scheme of the mode it does
/// not fix.
pub proof fn law_legacy_names_choose_by_lowercase(a: Appearance, b: Appearance, x: Seq<char>, y: Seq<char>, d: Appearance)
    requires
        legacy_appearance(a, lowercase(x)),
        legacy_appearance(b, lowercase(y)),
        is_default_appearance(d),
    ensures
        lowercase(x) == lowercase(y) ==> appearance_same(a, b),
        legacy_choice(lowercase(x)).0 == AppearanceMode::Auto ==> appearance_same(a, d),
        a.light_contrast == d.light_contrast && a.dark_contrast == d.dark_contrast,
        a.interface_accent == d.interface_accent && a.scheme_accent == d.scheme_accent,
        a.mode == AppearanceMode::Light ==> a.dark_scheme.0@ == d.dark_scheme.0@,
        a.mode == AppearanceMode::Dark ==> a.light_scheme.0@ == d.light_scheme.0@,
{
}

impl Default for Appearance {
    fn default() -> (r: Self)
        ensures
            is_default_appearance(r),
    {
        Appearance {
            mode: AppearanceMode::Auto,
            light_scheme: SchemeId::new("sanctum"),
            dark_scheme: SchemeId::new("notion"),
            light_contrast: LightContrast::Normal,
            dark_contrast: DarkContrast::Normal,
            interface_accent: true,
            scheme_accent: true,
        }
    }
}

fn scheme_supports(c: &Catalog, id: &str, mode: &str) -> (r: bool)
    ensures
        r == supports(*c, id@, mode@),
{
    let mut i: usize = 0;
    while i < c.schemes.len()
        invariant
            i <= c.schemes.len(),
            forall|a: int, b: int|
                0 <= a < i && 0 <= b < c.schemes[a].modes.len() && c.schemes[a].id@ == id@ ==> #[trigger] c.schemes[a].modes[b]@ != mode@,
        decreases c.schemes.len() - i,
    {
        let s = &c.schemes[i];
        if str_eq(s.id.as_str(), id) {
            let mut j: usize = 0;
            while j < s.modes.len()
                invariant
                    i < c.schemes.len(),
                    *s == c.schemes[i as int],
                    s.id@ == id@,
                    j <= s.modes.len(),
                    forall|b: int| 0 <= b < j ==> #[trigger] s.modes[b]@ != mode@,
                decreases s.modes.len() - j,
            {
                if str_eq(s.modes[j].as_str(), mode) {
                    assert(c.schemes[i as int].modes[j as int]@ == mode@);
                    return true;
                }
                j += 1;
            }
        }
        i += 1;
    }
    false
}

impl Appearance {
    /// The appearance that a legacy theme name chose, matched without regard to case.
    pub fn from_legacy(choice: &str) -> (r: Self)
        ensures
            legacy_appearance(r, lowercase(choice@)),
    {
        let key = to_lowercase(choice);
        Self::from_legacy_key(key.as_str())
    }

    /// The appearance that an already lowercased legacy theme name chose.
    pub fn from_legacy_key(key: &str) -> (r: Self)
        ensures
            legacy_appearance(r, key@),
    {
        let (mode, id) = if str_eq(key, "light") {
            (AppearanceMode::Light, "sanctum")
        } else if str_eq(key, "dark") {
            (AppearanceMode::Dark, "notion")
        } else if str_eq(key, "catppuccin latte") {
            (AppearanceMode::Light, "latte")
        } else if str_eq(key, "solarized light") {
            (AppearanceMode::Light, "solarized")
        } else if str_eq(key, "catppuccin mocha") {
            (AppearanceMode::Dark, "mocha")
        } else if str_eq(key, "dracula") {
            (AppearanceMode::Dark, "dracula")
        } else if str_eq(key, "gruvbox dark") {
            (AppearanceMode::Dark, "gruvbox")
        } else if str_eq(key, "nord") {
            (AppearanceMode::Dark, "nord")
        } else if str_eq(key, "ros\u{e9} pine") || str_eq(key, "rose pine") {
            (AppearanceMode::Dark, "rose-pine")
        } else if str_eq(key, "tokyo night") {
            (AppearanceMode::Dark, "notion")
        } else {
            (AppearanceMode::Auto, "")
        };
        assert(legacy_choice(key@) == (mode, id@));
        let mut result = Self::default();
        result.mode = mode;
        match mode {
            AppearanceMode::Light => result.light_scheme = SchemeId::new(id),
            AppearanceMode::Dark => result.dark_scheme = SchemeId::new(id),
            _ => {},
        }
        result
    }

    pub fn is_dark(&self, system_dark: bool) -> (r: bool)
        ensures
            r == spec_is_dark(*self, system_dark),
    {
        match self.mode {
            AppearanceMode::Auto => system_dark,
            AppearanceMode::Light => false,
            AppearanceMode::Dark => true,
        }
    }

    /// The first palette of the catalog that fits this appearance, if any.
    pub fn try_palette<'a>(&self, catalog: &'a Catalog, system_dark: bool) -> (r: Option<&'a Palette>)
        ensures
            match r {
                Some(p) => exists|i: int|
                    0 <= i < catalog.palettes.len() && *p == catalog.palettes[i]
                        && palette_fits(catalog.palettes[i], *self, *catalog, system_dark)
                        && forall|j: int| 0 <= j < i ==> !palette_fits(#[trigger] catalog.palettes[j], *self, *catalog, system_dark),
                None => !resolves(*self, *catalog, system_dark),
            },
    {
        let dark = self.is_dark(system_dark);
        let mode = if dark { "dark" } else { "light" };
        let id = if dark { self.dark_scheme.as_str() } else { self.light_scheme.as_str() };
        let contrast = if dark {
            match self.dark_contrast {
                DarkContrast::Normal => "normal",
                DarkContrast::Tonal => "tonal",
                DarkContrast::Black => "black",
            }
        } else {
            match self.light_contrast {
                LightContrast::Normal => "normal",
                LightContrast::Tonal => "tonal",
                LightContrast::Vivid => "vivid",
            }
        };
        let supported = scheme_supports(catalog, id, mode);
        let id = if supported {
            id
        } else if dark {
            "notion"
        } else {
            "sanctum"
        };
        assert(id@ == resolved_scheme(*self, *catalog, system_dark));
        assert(contrast@ == contrast_name(*self, dark));
        let mut i: usize = 0;
        while i < catalog.palettes.len()
            invariant
                i <= catalog.palettes.len(),
                id@ == resolved_scheme(*self, *catalog, system_dark),
                mode@ == mode_name(dark),
                dark == spec_is_dark(*self, system_dark),
                contrast@ == contrast_name(*self, dark),
                forall|j: int| 0 <= j < i ==> !palette_fits(#[trigger] catalog.palettes[j], *self, *catalog, system_dark),
            decreases catalog.palettes.len() - i,
        {
            let p = &catalog.palettes[i];
            if str_eq(p.id.as_str(), id) && str_eq(p.mode.as_str(), mode) && str_eq(p.contrast.as_str(), contrast)
                && p.scheme_accent == self.scheme_accent {
                assert(palette_fits(catalog.palettes[i as int], *self, *catalog, system_dark));
                return Some(p);
            }
            i += 1;
        }
        None
    }

    /// The palette for this appearance. The catalog must hold it, as the bundled one does
    /// for every scheme and mode it lists.
    pub fn palette<'a>(&self, catalog: &'a Catalog, system_dark: bool) -> (r: &'a Palette)
        requires
            resolves(*self, *catalog, system_dark),
        ensures
            palette_fits(*r, *self, *catalog, system_dark),
            exists|i: int|
                0 <= i < catalog.palettes.len() && *r == catalog.palettes[i]
                    && forall|j: int| 0 <= j < i ==> !palette_fits(#[trigger] catalog.palettes[j], *self, *catalog, system_dark),
    {
        self.try_palette(catalog, system_dark).unwrap()
    }
}

} // verus!

verus! {

/// The palette shown for an appearance is the one of the contrast chosen for the active
/// mode: in dark mode Normal, Tonal and Black select the `normal`, `tonal` and `black`
/// palettes, in light mode Normal, Tonal and Vivid select `normal`, `tonal` and `vivid`;
/// so two appearances that differ in the active mode's contrast never share a palette.
pub proof fn law_palette_follows_the_chosen_contrast(p: Palette, q: Palette, a: Appearance, b: Appearance, c: Catalog, system_dark: bool)
    requires
        palette_fits(p, a, c, system_dark),
        palette_fits(q, b, c, system_dark),
    ensures
        spec_is_dark(a, system_dark) ==> p.contrast@ == match a.dark_contrast {
            DarkContrast::Normal => "normal"@,
            DarkContrast::Tonal => "tonal"@,
            DarkContrast::Black => "black"@,
        },
        !spec_is_dark(a, system_dark) ==> p.contrast@ == match a.light_contrast {
            LightContrast::Normal => "normal"@,
            LightContrast::Tonal => "tonal"@,
            LightContrast::Vivid => "vivid"@,
        },
        spec_is_dark(a, system_dark) && spec_is_dark(b, system_dark) && a.dark_contrast != b.dark_contrast
            ==> p.contrast@ != q.contrast@,
        !spec_is_dark(a, system_dark) && !spec_is_dark(b, system_dark) && a.light_contrast != b.light_contrast
            ==> p.contrast@ != q.contrast@,
{
    reveal_strlit("normal");
    reveal_strlit("tonal");
    reveal_strlit("black");
    reveal_strlit("vivid");
    assert("normal"@.len() == 6 && "tonal"@.len() == 5 && "black"@.len() == 5 && "vivid"@.len() == 5);
    assert("tonal"@[0] != "black"@[0] && "tonal"@[0] != "vivid"@[0]);
    assert("normal"@ != "tonal"@ && "normal"@ != "black"@ && "normal"@ != "vivid"@);
    assert("tonal"@ != "black"@ && "tonal"@ != "vivid"@);
}

} // verus!
