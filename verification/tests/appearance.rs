use gamesync::appearance::{Appearance, AppearanceMode, Catalog, DarkContrast, LightContrast, Palette, Scheme, SchemeId};
use std::collections::BTreeMap;

const SHARED_BLUE: &str = "#3a82f6ff";

fn scheme(id: &str, name: &str, modes: &[&str]) -> Scheme {
    Scheme {
        id: id.to_string(),
        name: name.to_string(),
        modes: modes.iter().map(|m| m.to_string()).collect(),
    }
}

/// Surface colours of one scheme in one mode: content primary and secondary, chrome secondary,
/// chrome text, and the scheme's own accent.
struct Surfaces {
    primary: &'static str,
    secondary: &'static str,
    chrome: &'static str,
    text: &'static str,
    accent: &'static str,
}

fn palette(id: &str, mode: &str, contrast: &str, scheme_accent: bool, s: &Surfaces) -> Palette {
    let (primary, secondary, chrome) = match contrast {
        "tonal" => (s.secondary, s.secondary, s.secondary),
        "vivid" => (s.primary, s.secondary, s.chrome),
        "black" => ("#000000ff", "#000000ff", "#000000ff"),
        _ => (s.primary, s.secondary, s.secondary),
    };
    let mut content = BTreeMap::new();
    content.insert("background-primary".to_string(), primary.to_string());
    content.insert("background-secondary".to_string(), secondary.to_string());
    content.insert("text-normal".to_string(), s.text.to_string());
    let accent = if scheme_accent { s.accent } else { SHARED_BLUE };
    content.insert("interactive-accent".to_string(), accent.to_string());
    let mut chrome_map = BTreeMap::new();
    chrome_map.insert("background-secondary".to_string(), chrome.to_string());
    let chrome_text = if contrast == "vivid" { "#f4f4f0ff" } else { s.text };
    chrome_map.insert("text-normal".to_string(), chrome_text.to_string());
    chrome_map.insert("interactive-accent".to_string(), accent.to_string());
    Palette {
        id: id.to_string(),
        mode: mode.to_string(),
        contrast: contrast.to_string(),
        scheme_accent,
        content,
        chrome: chrome_map,
    }
}

fn add_palettes(out: &mut Vec<Palette>, id: &str, mode: &str, s: &Surfaces) {
    let contrasts: [&str; 3] = if mode == "dark" { ["normal", "tonal", "black"] } else { ["normal", "tonal", "vivid"] };
    for contrast in contrasts {
        for accent in [true, false] {
            out.push(palette(id, mode, contrast, accent, s));
        }
    }
}

fn catalog() -> Catalog {
    let light = Surfaces {
        primary: "#fdfefeff",
        secondary: "#f2f1eeff",
        chrome: "#262625ff",
        text: "#2e2e2bff",
        accent: "#c96442ff",
    };
    let dark = Surfaces {
        primary: "#191919ff",
        secondary: "#202020ff",
        chrome: "#111111ff",
        text: "#d4d4d4ff",
        accent: "#2383e2ff",
    };
    let other_light = Surfaces {
        primary: "#eff1f5ff",
        secondary: "#e6e9efff",
        chrome: "#4c4f69ff",
        text: "#4c4f69ff",
        accent: "#8839efff",
    };
    let other_dark = Surfaces {
        primary: "#1e1e2eff",
        secondary: "#181825ff",
        chrome: "#11111bff",
        text: "#cdd6f4ff",
        accent: "#cba6f7ff",
    };
    let schemes = vec![
        scheme("sanctum", "Sanctum", &["light"]),
        scheme("notion", "Notion", &["dark"]),
        scheme("latte", "Catppuccin Latte", &["light"]),
        scheme("solarized", "Solarized", &["light", "dark"]),
        scheme("mocha", "Catppuccin Mocha", &["dark"]),
        scheme("dracula", "Dracula", &["dark"]),
        scheme("gruvbox", "Gruvbox", &["light", "dark"]),
        scheme("nord", "Nord", &["dark"]),
        scheme("rose-pine", "Rosé Pine", &["light", "dark"]),
    ];
    let mut palettes = Vec::new();
    for s in &schemes {
        for mode in &s.modes {
            let surfaces = match (s.id.as_str(), mode.as_str()) {
                ("sanctum", _) => &light,
                ("notion", _) => &dark,
                (_, "light") => &other_light,
                _ => &other_dark,
            };
            add_palettes(&mut palettes, &s.id, mode, surfaces);
        }
    }
    Catalog { revision: "fixture".to_string(), schemes, palettes }
}

#[test]
fn defaults_and_system_changes_preserve_selections() {
    let c = catalog();
    let a = Appearance::default();
    assert_eq!(a.palette(&c, false).id, "sanctum");
    assert_eq!(a.palette(&c, true).id, "notion");
    assert_eq!(a.palette(&c, false).content["background-primary"], "#fdfefeff");
    assert_eq!(a.palette(&c, true).content["background-primary"], "#191919ff");
    let fixed = Appearance { mode: AppearanceMode::Light, ..a };
    assert_eq!(fixed.palette(&c, true).id, "sanctum");
}

#[test]
fn contrast_changes_surfaces_and_preserves_text() {
    let c = catalog();
    let mut a = Appearance { light_contrast: LightContrast::Tonal, ..Default::default() };
    let p = a.palette(&c, false);
    assert_eq!(p.content["background-primary"], p.content["background-secondary"]);
    a.light_contrast = LightContrast::Vivid;
    let p = a.palette(&c, false);
    assert_eq!(p.content["background-primary"], "#fdfefeff");
    assert_eq!(p.chrome["background-secondary"], "#262625ff");
    assert_eq!(p.chrome["text-normal"], "#f4f4f0ff");
    a.dark_contrast = DarkContrast::Black;
    let p = a.palette(&c, true);
    assert_eq!(p.content["background-primary"], "#000000ff");
    assert_eq!(p.chrome["background-secondary"], "#000000ff");
}

#[test]
fn legacy_names_keep_modes_and_choose_equivalents() {
    let c = catalog();
    for (old, id, mode) in [
        ("system", "sanctum", AppearanceMode::Auto),
        ("light", "sanctum", AppearanceMode::Light),
        ("dark", "notion", AppearanceMode::Dark),
        ("Catppuccin Latte", "latte", AppearanceMode::Light),
        ("Catppuccin Mocha", "mocha", AppearanceMode::Dark),
        ("Dracula", "dracula", AppearanceMode::Dark),
        ("Gruvbox Dark", "gruvbox", AppearanceMode::Dark),
        ("Nord", "nord", AppearanceMode::Dark),
        ("Rosé Pine", "rose-pine", AppearanceMode::Dark),
        ("Solarized Light", "solarized", AppearanceMode::Light),
        ("Tokyo Night", "notion", AppearanceMode::Dark),
    ] {
        let a = Appearance::from_legacy(old);
        assert_eq!(a.mode, mode);
        assert_eq!(a.palette(&c, false).id, id);
    }
}

#[test]
fn unsupported_mode_and_unknown_scheme_fall_back() {
    let c = catalog();
    let a = Appearance {
        light_scheme: SchemeId::new("dracula"),
        dark_scheme: SchemeId::new("missing"),
        ..Default::default()
    };
    assert_eq!(a.palette(&c, false).id, "sanctum");
    assert_eq!(a.palette(&c, true).id, "notion");
}

#[test]
fn disabling_scheme_accent_uses_shared_blue() {
    let c = catalog();
    let a = Appearance::default();
    let mut b = a.clone();
    b.scheme_accent = false;
    assert_ne!(
        a.palette(&c, false).content["interactive-accent"],
        b.palette(&c, false).content["interactive-accent"]
    );
    assert_eq!(
        b.palette(&c, false).content["interactive-accent"],
        b.palette(&c, true).content["interactive-accent"]
    );
}

#[test]
fn legacy_names_ignore_case_and_accept_plain_rose_pine() {
    assert_eq!(Appearance::from_legacy("NORD").dark_scheme.as_str(), "nord");
    assert_eq!(Appearance::from_legacy("rose pine").dark_scheme.as_str(), "rose-pine");
    let unknown = Appearance::from_legacy("Something else");
    assert_eq!(unknown.mode, AppearanceMode::Auto);
    assert_eq!(unknown.light_scheme.as_str(), "sanctum");
    assert_eq!(unknown.dark_scheme.as_str(), "notion");
}

#[test]
fn auto_mode_follows_the_system_and_fixed_modes_do_not() {
    let auto = Appearance::default();
    assert!(!auto.is_dark(false));
    assert!(auto.is_dark(true));
    let dark = Appearance { mode: AppearanceMode::Dark, ..Default::default() };
    assert!(dark.is_dark(false));
    let light = Appearance { mode: AppearanceMode::Light, ..Default::default() };
    assert!(!light.is_dark(true));
}

#[test]
fn a_catalog_without_the_palette_resolves_nothing() {
    let c = Catalog { revision: "empty".to_string(), schemes: Vec::new(), palettes: Vec::new() };
    assert!(Appearance::default().try_palette(&c, false).is_none());
    let full = catalog();
    let p = Appearance::default().try_palette(&full, true).unwrap();
    assert_eq!(p.id, "notion");
    assert_eq!(p.contrast, "normal");
    assert!(p.scheme_accent);
}

#[test]
fn legacy_names_choose_by_their_lowercase_form() {
    let upper = Appearance::from_legacy("DRACULA");
    let lower = Appearance::from_legacy("dracula");
    assert_eq!(upper.mode, lower.mode);
    assert_eq!(upper.dark_scheme.as_str(), lower.dark_scheme.as_str());
    assert_eq!(upper.light_scheme.as_str(), "sanctum");
    let unknown = Appearance::from_legacy("Unknown Theme");
    let default = Appearance::default();
    assert_eq!(unknown.mode, default.mode);
    assert_eq!(unknown.light_scheme.as_str(), default.light_scheme.as_str());
    assert_eq!(unknown.dark_scheme.as_str(), default.dark_scheme.as_str());
    assert_eq!(unknown.interface_accent, default.interface_accent);
}
