use typst_font_manager::command::FontCommand;
use typst_font_manager::error::FontError;
use typst_font_manager::font_library::TypstFontLibrary;
use typst_font_manager::font_manager::{
    embedded_fonts, reconcile, resolve_font_directory, select_library_dirs, Action, FontManager,
    FontStatus, LibraryDirs,
};
use typst_font_manager::font_set::FontSet;
use typst_font_manager::parse_font_config::{FontConfig, FontStyle, TypstFont};
use typst_font_manager::run::{advance, exit_status, RunState};

fn font(family: &str, style: FontStyle, weight: u16, stretch: u16) -> TypstFont {
    TypstFont { family_name: family.to_string(), style, weight, stretch }
}

fn plain(family: &str) -> TypstFont {
    font(family, FontStyle::Normal, 400, 1000)
}

fn set_of(families: &[&str]) -> FontSet {
    FontSet::from_fonts(&families.iter().map(|f| plain(f)).collect())
}

fn config(font_dir: Option<&str>) -> FontConfig {
    FontConfig { font_dir: font_dir.map(|d| d.to_string()), fonts: vec![] }
}

#[test]
fn a_required_font_of_the_project_is_satisfied() {
    let sets = reconcile(
        set_of(&["Arial"]),
        set_of(&["Arial"]),
        embedded_fonts(),
        TypstFontLibrary::new(),
    );
    assert!(sets.missing.is_empty());
    assert!(sets.redundant.is_empty());
    assert!(sets.current.contains(&plain("Arial")));
    assert_eq!(sets.classify_required(&plain("Arial")), FontStatus::SatisfiedInProject);
    assert_eq!(sets.classify_current(&plain("Arial")), FontStatus::SatisfiedInProject);
}

#[test]
fn an_embedded_font_is_not_missing() {
    let sets = reconcile(
        set_of(&["Foo"]),
        FontSet::new(),
        set_of(&["Foo"]),
        TypstFontLibrary::new(),
    );
    assert!(sets.missing.is_empty());
    assert!(!sets.current.contains(&plain("Foo")));
    assert_eq!(sets.classify_required(&plain("Foo")), FontStatus::SatisfiedByEmbedded);
}

#[test]
fn embedded_comes_before_satisfied_in_the_project() {
    let sets = reconcile(
        set_of(&["Foo"]),
        set_of(&["Foo"]),
        set_of(&["Foo"]),
        TypstFontLibrary::new(),
    );
    assert_eq!(sets.classify_required(&plain("Foo")), FontStatus::SatisfiedByEmbedded);
    assert_eq!(sets.classify_current(&plain("Foo")), FontStatus::SatisfiedInProject);
}

#[test]
fn the_derived_sets_follow_their_definitions() {
    let required = set_of(&["A", "B", "C", "D", "E"]);
    let current = set_of(&["B", "C", "X", "Y"]);
    let embedded = set_of(&["C", "D", "Z"]);
    let mut library = TypstFontLibrary::new();
    library.insert(plain("A"), "/lib/a.ttf".to_string());
    let sets = reconcile(required, current, embedded, library);

    assert_eq!(sets.missing, set_of(&["A", "E"]));
    assert_eq!(sets.redundant, set_of(&["X", "Y"]));
    assert_eq!(sets.required, set_of(&["A", "B", "C", "D", "E"]));
    assert_eq!(sets.current, set_of(&["B", "C", "X", "Y"]));
    assert_eq!(sets.embedded, set_of(&["C", "D", "Z"]));

    for f in sets.missing.to_fonts() {
        assert!(!sets.embedded.contains(&f));
        assert!(!sets.current.contains(&f));
        assert!(sets.required.contains(&f));
    }
    for f in sets.redundant.to_fonts() {
        assert!(!sets.required.contains(&f));
        assert!(sets.current.contains(&f));
    }

    assert_eq!(sets.classify_required(&plain("A")), FontStatus::Repairable);
    assert_eq!(sets.classify_required(&plain("B")), FontStatus::SatisfiedInProject);
    assert_eq!(sets.classify_required(&plain("C")), FontStatus::SatisfiedByEmbedded);
    assert_eq!(sets.classify_required(&plain("D")), FontStatus::SatisfiedByEmbedded);
    assert_eq!(sets.classify_required(&plain("E")), FontStatus::Unrepairable);
    assert_eq!(sets.classify_missing(&plain("A")), FontStatus::Repairable);
    assert_eq!(sets.classify_missing(&plain("E")), FontStatus::Unrepairable);
    assert_eq!(sets.classify_current(&plain("B")), FontStatus::SatisfiedInProject);
    assert_eq!(sets.classify_current(&plain("X")), FontStatus::Redundant);
}

#[test]
fn the_same_inputs_give_the_same_sets() {
    let once = reconcile(
        set_of(&["A", "B"]),
        set_of(&["B", "C"]),
        set_of(&["D"]),
        TypstFontLibrary::new(),
    );
    let again = reconcile(
        set_of(&["B", "A"]),
        set_of(&["C", "B"]),
        set_of(&["D"]),
        TypstFontLibrary::new(),
    );
    assert_eq!(once, again);
}

#[test]
fn the_engine_has_fourteen_fonts_built_in() {
    let embedded = embedded_fonts();
    assert_eq!(embedded.len(), 14);
    for family in ["DejaVu Sans Mono", "Linux Libertine", "New Computer Modern"] {
        for style in [FontStyle::Normal, FontStyle::Italic] {
            for weight in [400, 700] {
                assert!(embedded.contains(&font(family, style, weight, 1000)));
            }
        }
    }
    assert!(embedded.contains(&font("New Computer Modern Math", FontStyle::Normal, 400, 1000)));
    assert!(embedded.contains(&font("New Computer Modern Math", FontStyle::Normal, 450, 1000)));
    assert!(!embedded.contains(&font("New Computer Modern Math", FontStyle::Normal, 700, 1000)));
    assert!(!embedded.contains(&font("New Computer Modern Math", FontStyle::Italic, 400, 1000)));
    assert!(!embedded.contains(&font("Linux Libertine", FontStyle::Oblique, 400, 1000)));
    assert!(!embedded.contains(&font("Linux Libertine", FontStyle::Normal, 400, 1250)));
    assert!(!embedded.contains(&plain("Arial")));
}

#[test]
fn the_font_directory_is_taken_from_the_manifest_directory() {
    assert_eq!(resolve_font_directory("proj/font_config.toml", &config(None)), "proj/fonts");
    assert_eq!(
        resolve_font_directory("/home/u/proj/font_config.toml", &config(Some("assets/fonts"))),
        "/home/u/proj/assets/fonts"
    );
    assert_eq!(resolve_font_directory("./font_config.toml", &config(None)), "./fonts");
    assert_eq!(resolve_font_directory("font_config.toml", &config(None)), "fonts");
    assert_eq!(resolve_font_directory("font_config.toml", &config(Some("my fonts"))), "my fonts");
}

#[test]
fn an_absolute_font_directory_stays_as_it_is() {
    assert_eq!(
        resolve_font_directory("proj/font_config.toml", &config(Some("/abs/fonts"))),
        "/abs/fonts"
    );
}

#[test]
fn without_a_parent_the_working_directory_is_the_base() {
    assert_eq!(resolve_font_directory("", &config(None)), "./fonts");
    assert_eq!(resolve_font_directory("/", &config(Some("f"))), "./f");
}

#[test]
fn resolving_twice_gives_the_same_directory() {
    for manifest in ["proj/font_config.toml", "/a/b/c.toml", "c.toml", "", "./x/y.toml"] {
        for dir in [None, Some("fonts"), Some("/abs"), Some("a/b"), Some("")] {
            let once = resolve_font_directory(manifest, &config(dir));
            let twice = resolve_font_directory(manifest, &config(dir));
            assert_eq!(once, twice);
            if once.starts_with('/') {
                assert_eq!(resolve_font_directory(manifest, &config(Some(&once))), once);
            }
        }
    }
}

#[test]
fn repositories_need_locations() {
    let bad = FontCommand { config: "font_config.toml".to_string(), library: None, github: true };
    assert_eq!(
        bad.validate(),
        Err("When '--github' is set to true, '--library' must also be provided.".to_string())
    );
    let local = FontCommand { config: "font_config.toml".to_string(), library: None, github: false };
    assert_eq!(local.validate(), Ok(()));
    let remote = FontCommand {
        config: "font_config.toml".to_string(),
        library: Some(vec!["o/r".to_string()]),
        github: true,
    };
    assert_eq!(remote.validate(), Ok(()));
}

#[test]
fn the_sources_are_the_named_ones_or_those_of_the_system() {
    let system = vec!["/usr/share/fonts".to_string()];
    let unnamed = FontCommand { config: "c.toml".to_string(), library: None, github: false };
    assert_eq!(
        select_library_dirs(&unnamed, system.clone()),
        Ok(LibraryDirs::Local(system.clone()))
    );
    let named = FontCommand {
        config: "c.toml".to_string(),
        library: Some(vec!["/lib".to_string(), "/more".to_string()]),
        github: false,
    };
    let dirs = select_library_dirs(&named, system.clone()).unwrap();
    assert_eq!(dirs, LibraryDirs::Local(vec!["/lib".to_string(), "/more".to_string()]));
    assert!(!dirs.is_remote());
    assert_eq!(dirs.locations(), &vec!["/lib".to_string(), "/more".to_string()]);
    let remote = FontCommand {
        config: "c.toml".to_string(),
        library: Some(vec!["o/r".to_string()]),
        github: true,
    };
    let repos = select_library_dirs(&remote, system.clone()).unwrap();
    assert_eq!(repos, LibraryDirs::GitHub(vec!["o/r".to_string()]));
    assert!(repos.is_remote());
    let nowhere = FontCommand { config: "c.toml".to_string(), library: None, github: true };
    assert_eq!(
        select_library_dirs(&nowhere, system),
        Err("When '--github' is set to true, '--library' must also be provided.".to_string())
    );
}

#[test]
fn a_run_is_put_together_from_its_parts() {
    let args = FontCommand {
        config: "proj/font_config.toml".to_string(),
        library: Some(vec!["/lib".to_string()]),
        github: false,
    };
    let font_config = FontConfig {
        font_dir: None,
        fonts: vec![
            plain("Bar"),
            plain("Arial"),
            font("Linux Libertine", FontStyle::Italic, 700, 1000),
        ],
    };
    let mut library = TypstFontLibrary::new();
    library.insert(plain("Bar"), "/lib/bar.ttf".to_string());
    let manager = FontManager::new(
        &args,
        Action::Updating,
        font_config,
        LibraryDirs::Local(vec!["/lib".to_string()]),
        set_of(&["Arial", "Old"]),
        library,
    );
    assert_eq!(manager.config_file, "proj/font_config.toml");
    assert_eq!(manager.absolute_font_dir, "proj/fonts");
    assert_eq!(manager.action, Action::Updating);
    assert_eq!(manager.font_sets.missing, set_of(&["Bar"]));
    assert_eq!(manager.font_sets.redundant, set_of(&["Old"]));
    assert_eq!(manager.font_sets.embedded, embedded_fonts());
    assert_eq!(manager.font_sets.required.len(), 3);
}

#[test]
fn a_check_ends_after_the_report() {
    let mut state = RunState::Init;
    let mut seen = vec![state];
    while state != RunState::Done {
        state = advance(state, Action::Checking, None);
        seen.push(state);
    }
    assert_eq!(
        seen,
        vec![
            RunState::Init,
            RunState::ConfigLoaded,
            RunState::SetsComputed,
            RunState::Reported,
            RunState::Done
        ]
    );
    assert_eq!(exit_status(state), 0);
}

#[test]
fn an_update_goes_on_to_fetch_the_fonts() {
    let mut state = RunState::Init;
    let mut seen = vec![state];
    while state != RunState::Done {
        state = advance(state, Action::Updating, None);
        seen.push(state);
    }
    assert_eq!(
        seen,
        vec![
            RunState::Init,
            RunState::ConfigLoaded,
            RunState::SetsComputed,
            RunState::Reported,
            RunState::Updating,
            RunState::Updated,
            RunState::Done
        ]
    );
}

#[test]
fn a_fatal_error_aborts_the_run() {
    for e in [
        FontError::ConfigNotFound,
        FontError::ConfigParseError,
        FontError::RemoteFetchError,
        FontError::ManifestParseError,
        FontError::InvalidRepoPath,
    ] {
        assert!(e.aborts_run());
        let state = advance(RunState::Init, Action::Checking, Some(e));
        assert_eq!(state, RunState::Aborted);
        assert_eq!(exit_status(state), 1);
        assert_eq!(advance(state, Action::Checking, None), RunState::Aborted);
    }
}

#[test]
fn an_error_on_one_font_does_not_abort_the_run() {
    for e in [FontError::CopyError, FontError::DownloadError] {
        assert!(!e.aborts_run());
        let state = advance(RunState::Updating, Action::Updating, Some(e));
        assert_eq!(state, RunState::Updated);
        assert_eq!(exit_status(advance(state, Action::Updating, None)), 0);
    }
}

#[test]
fn a_run_that_is_done_stays_done() {
    assert_eq!(advance(RunState::Done, Action::Updating, None), RunState::Done);
    assert_eq!(
        advance(RunState::Done, Action::Updating, Some(FontError::ConfigNotFound)),
        RunState::Done
    );
}
