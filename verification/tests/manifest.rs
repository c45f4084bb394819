use typst_font_manager::error::FontError;
use typst_font_manager::parse_font_config::{
    expand_font_config, parse_style, requirement_of, style_name, written_manifest, FontConfig,
    FontManifest, FontRequirement, FontStyle, TypstFont, WeightEntry, DEFAULT_STRETCH,
    DEFAULT_WEIGHT,
};

fn font(family: &str, style: FontStyle, weight: u16, stretch: u16) -> TypstFont {
    TypstFont { family_name: family.to_string(), style, weight, stretch }
}

fn entry(
    family: &str,
    style: Option<&str>,
    weight: Option<WeightEntry>,
    stretch: Option<i64>,
) -> FontRequirement {
    FontRequirement {
        family_name: family.to_string(),
        style: style.map(|s| s.to_string()),
        weight,
        stretch,
    }
}

#[test]
fn entries_expand_with_defaults_and_weight_lists() {
    // Three entries: one with nothing but a family name, one with every
    // field, one with a list of two weights.
    let manifest = FontManifest {
        font_dir: None,
        fonts: vec![
            entry("Noto Sans", None, None, None),
            entry("Stix Two Text", Some("Italic"), Some(WeightEntry::Single(700)), Some(1250)),
            entry("Lato", Some("Italic"), Some(WeightEntry::List(vec![500, 700])), None),
        ],
    };

    let font_config = expand_font_config(&manifest).unwrap();
    let expected_fonts = vec![
        font("Noto Sans", FontStyle::Normal, 400, 1000),
        font("Stix Two Text", FontStyle::Italic, 700, 1250),
        font("Lato", FontStyle::Italic, 500, 1000),
        font("Lato", FontStyle::Italic, 700, 1000),
    ];

    assert_eq!(font_config.fonts, expected_fonts);
    assert_eq!(font_config.font_dir, None);
}

#[test]
fn expansion_keeps_the_font_directory() {
    let manifest = FontManifest {
        font_dir: Some("fonts".to_string()),
        fonts: vec![
            entry("Arial", Some("Normal"), Some(WeightEntry::Single(400)), Some(1000)),
            entry("Times New Roman", Some("Italic"), Some(WeightEntry::Single(700)), Some(2000)),
        ],
    };
    let expected = FontConfig {
        font_dir: Some("fonts".to_string()),
        fonts: vec![
            font("Arial", FontStyle::Normal, 400, 1000),
            font("Times New Roman", FontStyle::Italic, 700, 2000),
        ],
    };
    assert_eq!(expand_font_config(&manifest), Ok(expected));
}

#[test]
fn two_weights_give_two_identities_that_differ_in_weight_only() {
    let fonts = entry("Foo", Some("oblique"), Some(WeightEntry::List(vec![400, 700])), Some(900))
        .expand()
        .unwrap();
    assert_eq!(fonts.len(), 2);
    assert_eq!(fonts[0], font("Foo", FontStyle::Oblique, 400, 900));
    assert_eq!(fonts[1], font("Foo", FontStyle::Oblique, 700, 900));
    assert_eq!(fonts[0].family_name, fonts[1].family_name);
    assert_eq!(fonts[0].style, fonts[1].style);
    assert_eq!(fonts[0].stretch, fonts[1].stretch);
    assert_ne!(fonts[0].weight, fonts[1].weight);
}

#[test]
fn a_bare_weight_gives_one_identity() {
    let fonts = entry("Foo", None, Some(WeightEntry::Single(300)), None).expand().unwrap();
    assert_eq!(fonts, vec![font("Foo", FontStyle::Normal, 300, 1000)]);
}

#[test]
fn missing_fields_take_their_defaults() {
    let fonts = entry("Foo", None, None, None).expand().unwrap();
    assert_eq!(fonts, vec![font("Foo", FontStyle::Normal, DEFAULT_WEIGHT, DEFAULT_STRETCH)]);
    assert_eq!(DEFAULT_WEIGHT, 400);
    assert_eq!(DEFAULT_STRETCH, 1000);
}

#[test]
fn an_empty_weight_list_gives_no_identity() {
    let fonts = entry("Foo", None, Some(WeightEntry::List(vec![])), None).expand().unwrap();
    assert!(fonts.is_empty());
}

#[test]
fn weights_are_expanded_in_the_order_written() {
    let fonts = entry("Foo", None, Some(WeightEntry::List(vec![700, 100, 400])), None)
        .expand()
        .unwrap();
    let weights: Vec<u16> = fonts.iter().map(|f| f.weight).collect();
    assert_eq!(weights, vec![700, 100, 400]);
}

#[test]
fn an_unknown_style_is_a_parse_error() {
    let r = entry("Foo", Some("slanted"), None, None).expand();
    assert_eq!(r, Err(FontError::ConfigParseError));
}

#[test]
fn a_weight_out_of_range_is_a_parse_error() {
    assert_eq!(
        entry("Foo", None, Some(WeightEntry::Single(0)), None).expand(),
        Err(FontError::ConfigParseError)
    );
    assert_eq!(
        entry("Foo", None, Some(WeightEntry::Single(1001)), None).expand(),
        Err(FontError::ConfigParseError)
    );
    assert_eq!(
        entry("Foo", None, Some(WeightEntry::List(vec![400, -1])), None).expand(),
        Err(FontError::ConfigParseError)
    );
    assert!(entry("Foo", None, Some(WeightEntry::Single(1)), None).expand().is_ok());
    assert!(entry("Foo", None, Some(WeightEntry::Single(1000)), None).expand().is_ok());
}

#[test]
fn a_stretch_out_of_range_is_a_parse_error() {
    assert_eq!(entry("Foo", None, None, Some(-1)).expand(), Err(FontError::ConfigParseError));
    assert_eq!(entry("Foo", None, None, Some(65536)).expand(), Err(FontError::ConfigParseError));
    assert_eq!(
        entry("Foo", None, None, Some(65535)).expand(),
        Ok(vec![font("Foo", FontStyle::Normal, 400, 65535)])
    );
}

#[test]
fn one_bad_entry_rejects_the_manifest() {
    let manifest = FontManifest {
        font_dir: None,
        fonts: vec![entry("Good", None, None, None), entry("Bad", Some("bold"), None, None)],
    };
    assert_eq!(expand_font_config(&manifest), Err(FontError::ConfigParseError));
}

#[test]
fn an_empty_manifest_requires_nothing() {
    let manifest = FontManifest { font_dir: None, fonts: vec![] };
    assert_eq!(expand_font_config(&manifest), Ok(FontConfig { font_dir: None, fonts: vec![] }));
}

#[test]
fn style_names_are_read_without_regard_to_case() {
    assert_eq!(parse_style("Normal"), Some(FontStyle::Normal));
    assert_eq!(parse_style("normal"), Some(FontStyle::Normal));
    assert_eq!(parse_style("ITALIC"), Some(FontStyle::Italic));
    assert_eq!(parse_style("oBlIqUe"), Some(FontStyle::Oblique));
    assert_eq!(parse_style(""), None);
    assert_eq!(parse_style("normal "), None);
    assert_eq!(parse_style("norma"), None);
    assert_eq!(parse_style("bold"), None);
}

#[test]
fn style_names_are_written_capitalised() {
    assert_eq!(style_name(FontStyle::Normal), "Normal");
    assert_eq!(style_name(FontStyle::Italic), "Italic");
    assert_eq!(style_name(FontStyle::Oblique), "Oblique");
    for style in [FontStyle::Normal, FontStyle::Italic, FontStyle::Oblique] {
        assert_eq!(parse_style(style_name(style)), Some(style));
    }
}

#[test]
fn a_weight_that_is_no_number_is_a_parse_error() {
    assert_eq!(
        entry("Foo", None, Some(WeightEntry::Other), None).expand(),
        Err(FontError::ConfigParseError)
    );
}

#[test]
fn a_font_is_written_with_every_field() {
    let written = requirement_of(&font("Times New Roman", FontStyle::Italic, 700, 2000));
    assert_eq!(
        written,
        entry("Times New Roman", Some("Italic"), Some(WeightEntry::Single(700)), Some(2000))
    );
}

#[test]
fn a_written_configuration_expands_to_itself() {
    let config = FontConfig {
        font_dir: Some("fonts".to_string()),
        fonts: vec![
            font("Arial", FontStyle::Normal, 400, 1000),
            font("Times New Roman", FontStyle::Italic, 700, 2000),
            font("Arial", FontStyle::Normal, 400, 1000),
            font("Lato", FontStyle::Oblique, 1, 0),
        ],
    };
    let manifest = written_manifest(&config);
    assert_eq!(manifest.font_dir, Some("fonts".to_string()));
    assert_eq!(manifest.fonts.len(), 4);
    assert_eq!(expand_font_config(&manifest), Ok(config));
}
