use typst_font_manager::error::FontError;
use typst_font_manager::font_library::{
    create_font_path_map, create_font_path_map_from_dirs, get_github_font_library_info,
    read_library_manifest, strip_library_root_path, write_library_manifest, FontFile,
    FontLibraryEntry, LibraryContents, LibraryRecord, RepositoryManifest, TypstFontLibrary,
};
use typst_font_manager::font_set::FontSet;
use typst_font_manager::parse_font_config::{FontStyle, TypstFont};

fn font(family: &str, style: FontStyle, weight: u16, stretch: u16) -> TypstFont {
    TypstFont { family_name: family.to_string(), style, weight, stretch }
}

fn plain(family: &str) -> TypstFont {
    font(family, FontStyle::Normal, 400, 1000)
}

fn entry(family: &str, path: &str) -> FontLibraryEntry {
    FontLibraryEntry { font: plain(family), path: path.to_string() }
}

fn library_of(entries: &[(&str, &str)]) -> TypstFontLibrary {
    TypstFontLibrary::from_entries(&entries.iter().map(|(f, p)| entry(f, p)).collect())
}

#[test]
fn a_library_maps_fonts_to_paths() {
    let mut library = TypstFontLibrary::new();
    assert!(library.is_empty());
    library.insert(
        font("Arial", FontStyle::Normal, 400, 1000),
        "fonts/arial.ttf".to_string(),
    );
    library.insert(
        font("Times New Roman", FontStyle::Italic, 700, 1000),
        "fonts/times.ttf".to_string(),
    );
    assert_eq!(library.len(), 2);
    assert!(!library.is_empty());
    assert_eq!(
        library.get(&font("Arial", FontStyle::Normal, 400, 1000)),
        Some(&"fonts/arial.ttf".to_string())
    );
    assert_eq!(
        library.get(&font("Times New Roman", FontStyle::Italic, 700, 1000)),
        Some(&"fonts/times.ttf".to_string())
    );
    assert_eq!(library.get(&font("Times New Roman", FontStyle::Normal, 700, 1000)), None);
    assert!(library.contains_key(&plain("Arial")));
    assert!(!library.contains_key(&plain("Helvetica")));
}

#[test]
fn the_last_path_recorded_for_a_font_stands() {
    let mut library = TypstFontLibrary::new();
    library.insert(plain("Arial"), "/first/arial.ttf".to_string());
    library.insert(plain("Arial"), "/second/arial.ttf".to_string());
    assert_eq!(library.len(), 1);
    assert_eq!(library.get(&plain("Arial")), Some(&"/second/arial.ttf".to_string()));
}

#[test]
fn entries_come_out_in_the_order_of_identities() {
    let library = library_of(&[("C", "c.ttf"), ("A", "a.ttf"), ("B", "b.ttf"), ("A", "a2.ttf")]);
    assert_eq!(
        library.to_entries(),
        vec![entry("A", "a2.ttf"), entry("B", "b.ttf"), entry("C", "c.ttf")]
    );
    assert_eq!(library.entry(0), Some(&entry("A", "a2.ttf")));
    assert_eq!(library.entry(2), Some(&entry("C", "c.ttf")));
    assert_eq!(library.entry(3), None);
    assert_eq!(library.fonts(), FontSet::from_fonts(&vec![plain("A"), plain("B"), plain("C")]));
}

fn record(
    family: &str,
    style: Option<&str>,
    weight: Option<i64>,
    stretch: Option<i64>,
    path: &str,
) -> LibraryRecord {
    LibraryRecord {
        family_name: family.to_string(),
        style: style.map(|s| s.to_string()),
        weight,
        stretch,
        path: path.to_string(),
    }
}

#[test]
fn a_library_written_out_and_read_back_is_the_same() {
    let mut library = TypstFontLibrary::new();
    library.insert(
        font("Arial", FontStyle::Normal, 400, 1000),
        "fonts/arial.ttf".to_string(),
    );
    library.insert(
        font("Times New Roman", FontStyle::Italic, 700, 1000),
        "fonts/times.ttf".to_string(),
    );

    let records = write_library_manifest(&library);
    assert_eq!(
        records,
        vec![
            record("Arial", Some("Normal"), Some(400), Some(1000), "fonts/arial.ttf"),
            record("Times New Roman", Some("Italic"), Some(700), Some(1000), "fonts/times.ttf"),
        ]
    );

    let entries = read_library_manifest(&records).unwrap();
    let deserialized = TypstFontLibrary::from_entries(&entries);
    assert_eq!(library, deserialized);
}

#[test]
fn a_library_record_takes_the_defaults() {
    let entries = read_library_manifest(&vec![
        record("A", None, None, None, "a.ttf"),
        record("B", Some("OBLIQUE"), Some(900), Some(500), "b.ttf"),
    ])
    .unwrap();
    assert_eq!(
        entries,
        vec![
            FontLibraryEntry { font: plain("A"), path: "a.ttf".to_string() },
            FontLibraryEntry {
                font: font("B", FontStyle::Oblique, 900, 500),
                path: "b.ttf".to_string()
            },
        ]
    );
}

#[test]
fn a_library_record_off_the_schema_is_a_parse_error() {
    for bad in [
        record("A", Some("bold"), None, None, "a.ttf"),
        record("A", None, Some(0), None, "a.ttf"),
        record("A", None, Some(1001), None, "a.ttf"),
        record("A", None, None, Some(-1), "a.ttf"),
        record("A", None, None, Some(65536), "a.ttf"),
    ] {
        assert_eq!(bad.read(), Err(FontError::ManifestParseError));
        assert_eq!(
            read_library_manifest(&vec![record("Good", None, None, None, "g.ttf"), bad]),
            Err(FontError::ManifestParseError)
        );
    }
    assert_eq!(read_library_manifest(&vec![]), Ok(vec![]));
}

#[test]
fn later_sources_override_earlier_ones() {
    let local = LibraryContents::Local(vec![
        FontFile { path: "/one/a.ttf".to_string(), faces: vec![plain("A")] },
        FontFile { path: "/two/a.ttf".to_string(), faces: vec![plain("A")] },
    ]);
    assert_eq!(create_font_path_map_from_dirs(&local), library_of(&[("A", "/two/a.ttf")]));

    let remote = LibraryContents::GitHub(vec![
        RepositoryManifest {
            repository: "o/first".to_string(),
            entries: vec![entry("A", "a.ttf"), entry("B", "b.ttf")],
        },
        RepositoryManifest {
            repository: "o/second".to_string(),
            entries: vec![entry("B", "fonts/b.ttf")],
        },
    ]);
    assert_eq!(
        create_font_path_map_from_dirs(&remote),
        library_of(&[("A", "o/first/a.ttf"), ("B", "o/second/fonts/b.ttf")])
    );
    assert!(create_font_path_map_from_dirs(&LibraryContents::Local(vec![])).is_empty());
    assert!(create_font_path_map_from_dirs(&LibraryContents::GitHub(vec![])).is_empty());
}

#[test]
fn a_later_directory_overrides_an_earlier_one() {
    let files = vec![
        FontFile {
            path: "/one/arial.ttf".to_string(),
            faces: vec![plain("Arial"), font("Arial", FontStyle::Italic, 400, 1000)],
        },
        FontFile { path: "/one/notes.txt".to_string(), faces: vec![] },
        FontFile { path: "/two/arial.otf".to_string(), faces: vec![plain("Arial")] },
        FontFile { path: "/two/bar.ttf".to_string(), faces: vec![plain("Bar")] },
    ];
    let library = create_font_path_map(&files);
    assert_eq!(library.len(), 3);
    assert_eq!(library.get(&plain("Arial")), Some(&"/two/arial.otf".to_string()));
    assert_eq!(
        library.get(&font("Arial", FontStyle::Italic, 400, 1000)),
        Some(&"/one/arial.ttf".to_string())
    );
    assert_eq!(library.get(&plain("Bar")), Some(&"/two/bar.ttf".to_string()));
}

#[test]
fn a_collection_file_supplies_all_its_faces() {
    let mut library = TypstFontLibrary::new();
    library.record_faces(
        &vec![plain("A"), font("A", FontStyle::Normal, 700, 1000), plain("A")],
        "/lib/a.ttc",
    );
    assert_eq!(library.len(), 2);
    assert_eq!(library.get(&plain("A")), Some(&"/lib/a.ttc".to_string()));
    library.record_faces(&vec![], "/lib/none.ttf");
    assert_eq!(library.len(), 2);
}

#[test]
fn merging_prefers_the_library_merged_in() {
    let mut library = library_of(&[("A", "/one/a.ttf"), ("B", "/one/b.ttf")]);
    let other = library_of(&[("B", "/two/b.ttf"), ("C", "/two/c.ttf")]);
    library.extend(&other);
    assert_eq!(
        library,
        library_of(&[("A", "/one/a.ttf"), ("B", "/two/b.ttf"), ("C", "/two/c.ttf")])
    );
    library.extend(&TypstFontLibrary::new());
    assert_eq!(library.len(), 3);
}

#[test]
fn the_library_root_is_taken_off_the_paths_below_it() {
    let mut library = library_of(&[
        ("A", "/Users/chy/FONT_LIBRARY/a.ttf"),
        ("B", "/Users/chy/FONT_LIBRARY/sub/b.ttf"),
        ("C", "/somewhere/else/c.ttf"),
        ("D", "/Users/chy/FONT_LIBRARY_2/d.ttf"),
    ]);
    strip_library_root_path(&mut library, "/Users/chy/FONT_LIBRARY");
    assert_eq!(
        library,
        library_of(&[
            ("A", "a.ttf"),
            ("B", "sub/b.ttf"),
            ("C", "/somewhere/else/c.ttf"),
            ("D", "/Users/chy/FONT_LIBRARY_2/d.ttf"),
        ])
    );
}

#[test]
fn a_remote_library_names_its_repository_in_every_path() {
    let entries = vec![entry("Baz", "fonts/baz.ttf"), entry("Qux", "qux.otf")];
    let library = get_github_font_library_info("ownerX/repoY", &entries);
    assert_eq!(
        library,
        library_of(&[("Baz", "ownerX/repoY/fonts/baz.ttf"), ("Qux", "ownerX/repoY/qux.otf")])
    );
}

#[test]
fn prefixing_and_stripping_undo_each_other() {
    let mut library = library_of(&[("A", "a.ttf"), ("B", "sub/b.ttf")]);
    library.prefix_with_repository("o/r");
    assert_eq!(library, library_of(&[("A", "o/r/a.ttf"), ("B", "o/r/sub/b.ttf")]));
    strip_library_root_path(&mut library, "o/r");
    assert_eq!(library, library_of(&[("A", "a.ttf"), ("B", "sub/b.ttf")]));
}
