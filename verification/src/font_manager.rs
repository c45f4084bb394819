//! Reconciliation: which required fonts are there, which are missing, which
//! files are not needed, and how the missing ones can be fetched.

use crate::command::FontCommand;
use crate::error::FontError;
use crate::font_library::TypstFontLibrary;
use crate::font_set::{ascending, FontSet};
use crate::parse_font_config::{FontConfig, FontKey, FontStyle, TypstFont};
use crate::paths::{
    absolute, download_url, file_name, file_name_of, has_components, is_absolute, join, join_of,
    lemma_parent_of_absolute, parent, parent_of, raw_content_url, remainder_of, repository_of,
};
use crate::text::texts_of;
use vstd::prelude::*;

verus! {

fn copy_texts(list: &Vec<String>) -> (r: Vec<String>)
    ensures
        texts_of(r@) == texts_of(list@),
{
    let mut out: Vec<String> = Vec::new();
    let mut i: usize = 0;
    while i < list.len()
        invariant
            i <= list@.len(),
            out@.len() == i,
            forall|j: int| 0 <= j < i ==> (#[trigger] out@[j])@ == list@[j]@,
        decreases list@.len() - i,
    {
        out.push(list[i].clone());
        i = i + 1;
    }
    assert(texts_of(out@) =~= texts_of(list@));
    out
}

/// Where fonts may be taken from.
#[derive(Clone, Debug, PartialEq, Eq)]
pub enum LibraryDirs {
    /// Directories of this machine.
    Local(Vec<String>),
    /// Hosted repositories, each written `owner/repo`.
    GitHub(Vec<String>),
}

impl LibraryDirs {
    /// The directories or repositories, in the order given.
    pub open spec fn places(&self) -> Seq<Seq<char>> {
        match self {
            LibraryDirs::Local(dirs) => texts_of(dirs@),
            LibraryDirs::GitHub(repos) => texts_of(repos@),
        }
    }

    /// The directories or repositories, in the order given.
    pub fn locations(&self) -> (r: &Vec<String>)
        ensures
            texts_of(r@) == self.places(),
    {
        match self {
            LibraryDirs::Local(dirs) => dirs,
            LibraryDirs::GitHub(repos) => repos,
        }
    }

    /// Whether the fonts come from hosted repositories.
    pub fn is_remote(&self) -> (r: bool)
        ensures
            r == (self is GitHub),
    {
        match self {
            LibraryDirs::Local(_) => false,
            LibraryDirs::GitHub(_) => true,
        }
    }
}

/// The font sources of a command: the repositories it names; else the
/// directories it names; else the font directories of the system. A
/// command that asks for repositories and names none is refused with the
/// message for the user.
pub fn select_library_dirs(args: &FontCommand, system_dirs: Vec<String>) -> (r: Result<
    LibraryDirs,
    String,
>)
    ensures
        r is Ok <==> args.consistent(),
        r is Ok ==> (r->Ok_0 is GitHub) == args.github,
        r is Ok && args.library is Some ==> r->Ok_0.places() == texts_of(args.library->0@),
        r is Ok && args.library is None ==> r->Ok_0.places() == texts_of(system_dirs@),
        r is Err ==> r->Err_0@
            == "When '--github' is set to true, '--library' must also be provided."@,
{
    match args.validate() {
        Err(message) => Err(message),
        Ok(()) => match &args.library {
            Some(places) => {
                if args.github {
                    Ok(LibraryDirs::GitHub(copy_texts(places)))
                } else {
                    Ok(LibraryDirs::Local(copy_texts(places)))
                }
            },
            None => Ok(LibraryDirs::Local(system_dirs)),
        },
    }
}

/// The required fonts that neither the engine nor the project supplies.
pub open spec fn missing_of(
    required: Set<FontKey>,
    current: Set<FontKey>,
    embedded: Set<FontKey>,
) -> Set<FontKey> {
    required.difference(embedded).difference(current)
}

/// The fonts of the project that nothing requires.
pub open spec fn redundant_of(required: Set<FontKey>, current: Set<FontKey>) -> Set<FontKey> {
    current.difference(required)
}

/// Whatever is required, present and built in: no missing font is built in,
/// no missing font is present, and no redundant font is required.
pub proof fn lemma_derived_sets_disjoint(
    required: Set<FontKey>,
    current: Set<FontKey>,
    embedded: Set<FontKey>,
)
    ensures
        missing_of(required, current, embedded).intersect(embedded) == Set::<FontKey>::empty(),
        missing_of(required, current, embedded).intersect(current) == Set::<FontKey>::empty(),
        redundant_of(required, current).intersect(required) == Set::<FontKey>::empty(),
        missing_of(required, current, embedded).subset_of(required),
        redundant_of(required, current).subset_of(current),
{
    assert(missing_of(required, current, embedded).intersect(embedded) =~= Set::<
        FontKey,
    >::empty());
    assert(missing_of(required, current, embedded).intersect(current) =~= Set::<FontKey>::empty());
    assert(redundant_of(required, current).intersect(required) =~= Set::<FontKey>::empty());
}

/// Whether a font is built into the engine.
pub open spec fn is_embedded(k: FontKey) -> bool {
    k.stretch == 1000 && ({
        ||| (k.family == "DejaVu Sans Mono"@ || k.family == "Linux Libertine"@ || k.family
            == "New Computer Modern"@) && (k.style == FontStyle::Normal || k.style
            == FontStyle::Italic) && (k.weight == 400 || k.weight == 700)
        ||| k.family == "New Computer Modern Math"@ && k.style == FontStyle::Normal && (k.weight
            == 400 || k.weight == 450)
    })
}

fn embed(set: &mut FontSet, family: &str, style: FontStyle, light: u16, bold: u16)
    ensures
        final(set)@ == old(set)@.insert(
            FontKey { family: family@, style, weight: light, stretch: 1000 },
        ).insert(FontKey { family: family@, style, weight: bold, stretch: 1000 }),
{
    set.insert(
        TypstFont { family_name: String::from_str(family), style, weight: light, stretch: 1000 },
    );
    set.insert(
        TypstFont { family_name: String::from_str(family), style, weight: bold, stretch: 1000 },
    );
}

/// The fonts built into the engine.
pub fn embedded_fonts() -> (r: FontSet)
    ensures
        r@ == Set::new(|k: FontKey| is_embedded(k)),
{
    let mut set = FontSet::new();
    embed(&mut set, "DejaVu Sans Mono", FontStyle::Normal, 400, 700);
    embed(&mut set, "DejaVu Sans Mono", FontStyle::Italic, 400, 700);
    embed(&mut set, "Linux Libertine", FontStyle::Normal, 400, 700);
    embed(&mut set, "Linux Libertine", FontStyle::Italic, 400, 700);
    embed(&mut set, "New Computer Modern", FontStyle::Normal, 400, 700);
    embed(&mut set, "New Computer Modern", FontStyle::Italic, 400, 700);
    embed(&mut set, "New Computer Modern Math", FontStyle::Normal, 400, 450);
    assert(set@ =~= Set::new(|k: FontKey| is_embedded(k)));
    set
}

/// The font sets of one run.
#[derive(Debug, PartialEq, Eq)]
pub struct FontSets {
    /// What the manifest requires.
    pub required: FontSet,
    /// What the project's font directory holds.
    pub current: FontSet,
    /// What the engine has built in.
    pub embedded: FontSet,
    /// What is required and supplied neither by the engine nor the project.
    pub missing: FontSet,
    /// What the project holds and nothing requires.
    pub redundant: FontSet,
    /// What the font library can supply, and from where.
    pub library: TypstFontLibrary,
}

/// What is to be said of a font.
#[derive(Clone, Copy, Debug, PartialEq, Eq, Hash, Structural)]
pub enum FontStatus {
    /// Required, and the project holds it.
    SatisfiedInProject,
    /// Required, and the engine has it built in.
    SatisfiedByEmbedded,
    /// Held by the project and not required.
    Redundant,
    /// Missing, and the library can supply it.
    Repairable,
    /// Missing, and the library cannot supply it.
    Unrepairable,
}

impl FontSets {
    /// The missing and the redundant fonts are the ones derived from the
    /// other three sets.
    pub open spec fn well_formed(&self) -> bool {
        &&& self.missing@ == missing_of(self.required@, self.current@, self.embedded@)
        &&& self.redundant@ == redundant_of(self.required@, self.current@)
    }

    /// The status of a font of the project: satisfied where it is required,
    /// else redundant.
    pub open spec fn current_status(&self, k: FontKey) -> FontStatus {
        if self.required@.contains(k) {
            FontStatus::SatisfiedInProject
        } else {
            FontStatus::Redundant
        }
    }

    /// The status of a required font. Built in comes first; then whether it
    /// is missing; a missing font is repairable where the library has it.
    pub open spec fn required_status(&self, k: FontKey) -> FontStatus {
        if self.embedded@.contains(k) {
            FontStatus::SatisfiedByEmbedded
        } else if !self.missing@.contains(k) {
            FontStatus::SatisfiedInProject
        } else if self.library@.dom().contains(k) {
            FontStatus::Repairable
        } else {
            FontStatus::Unrepairable
        }
    }

    /// The status of a missing font: repairable where the library has it.
    pub open spec fn missing_status(&self, k: FontKey) -> FontStatus {
        if self.library@.dom().contains(k) {
            FontStatus::Repairable
        } else {
            FontStatus::Unrepairable
        }
    }

    /// Classifies a font of the project.
    pub fn classify_current(&self, font: &TypstFont) -> (r: FontStatus)
        ensures
            r == self.current_status(font@),
    {
        if self.required.contains(font) {
            FontStatus::SatisfiedInProject
        } else {
            FontStatus::Redundant
        }
    }

    /// Classifies a required font.
    pub fn classify_required(&self, font: &TypstFont) -> (r: FontStatus)
        ensures
            r == self.required_status(font@),
    {
        if self.embedded.contains(font) {
            FontStatus::SatisfiedByEmbedded
        } else if !self.missing.contains(font) {
            FontStatus::SatisfiedInProject
        } else if self.library.contains_key(font) {
            FontStatus::Repairable
        } else {
            FontStatus::Unrepairable
        }
    }

    /// Classifies a missing font.
    pub fn classify_missing(&self, font: &TypstFont) -> (r: FontStatus)
        ensures
            r == self.missing_status(font@),
    {
        if self.library.contains_key(font) {
            FontStatus::Repairable
        } else {
            FontStatus::Unrepairable
        }
    }
}

/// In well-formed sets a required font is classified as missing, repairable
/// or not, exactly if it is in the missing set; it counts as satisfied in
/// the project exactly if the project holds it and the engine does not.
pub proof fn lemma_required_status(sets: FontSets, k: FontKey)
    requires
        sets.well_formed(),
        sets.required@.contains(k),
    ensures
        sets.missing@.contains(k) <==> (sets.required_status(k) == FontStatus::Repairable
            || sets.required_status(k) == FontStatus::Unrepairable),
        sets.required_status(k) == FontStatus::SatisfiedInProject <==> (sets.current@.contains(k)
            && !sets.embedded@.contains(k)),
        sets.required_status(k) == FontStatus::SatisfiedByEmbedded <==> sets.embedded@.contains(k),
{
}

/// Computes the font sets of a run from what is required, what the project
/// holds, what is built in and what the library offers.
pub fn reconcile(
    required: FontSet,
    current: FontSet,
    embedded: FontSet,
    library: TypstFontLibrary,
) -> (r: FontSets)
    ensures
        r.required@ == required@,
        r.current@ == current@,
        r.embedded@ == embedded@,
        r.library@ == library@,
        r.missing@ == missing_of(required@, current@, embedded@),
        r.redundant@ == redundant_of(required@, current@),
        r.well_formed(),
        r.missing@.disjoint(r.embedded@),
        r.missing@.disjoint(r.current@),
        r.redundant@.disjoint(r.required@),
        ascending(r.missing.keys()),
        ascending(r.redundant.keys()),
{
    let missing = required.difference(&embedded).difference(&current);
    let redundant = current.difference(&required);
    FontSets { required, current, embedded, missing, redundant, library }
}

/// The project's font directory: the directory the manifest names, or
/// `fonts`; taken from the directory of the manifest unless it is absolute;
/// from the working directory where the manifest path has no parent.
pub open spec fn resolved_font_dir(config_file: Seq<char>, font_dir: Option<Seq<char>>) -> Seq<
    char,
> {
    let dir = match font_dir {
        Some(dir) => dir,
        None => "fonts"@,
    };
    let base = match parent_of(config_file) {
        Some(base) => base,
        None => "."@,
    };
    if absolute(dir) {
        dir
    } else {
        join_of(base, dir)
    }
}

/// The directory that a manifest names, as text.
pub open spec fn named_dir(config: &FontConfig) -> Option<Seq<char>> {
    match config.font_dir {
        Some(dir) => Some(dir@),
        None => None,
    }
}

/// Resolves the project's font directory. The result depends on the
/// manifest path and the directory named alone, so resolving twice gives
/// the same path.
pub fn resolve_font_directory(config_file: &str, font_config: &FontConfig) -> (r: String)
    ensures
        r@ == resolved_font_dir(config_file@, named_dir(font_config)),
{
    let dir: &str = match &font_config.font_dir {
        Some(dir) => dir.as_str(),
        None => "fonts",
    };
    if is_absolute(dir) {
        String::from_str(dir)
    } else {
        let base: &str = match parent(config_file) {
            Some(base) => base,
            None => ".",
        };
        join(base, dir)
    }
}

/// An absolute directory resolves to itself, whatever the manifest path.
/// So a resolved directory that is absolute resolves to itself again. The
/// resolved directory is absolute whenever the directory named is, and
/// whenever the manifest path is absolute and has a parent.
pub proof fn lemma_resolution_is_idempotent(config_file: Seq<char>, font_dir: Option<Seq<char>>)
    ensures
        font_dir is Some && absolute(font_dir->0) ==> resolved_font_dir(config_file, font_dir)
            == font_dir->0,
        absolute(resolved_font_dir(config_file, font_dir)) ==> resolved_font_dir(
            config_file,
            Some(resolved_font_dir(config_file, font_dir)),
        ) == resolved_font_dir(config_file, font_dir),
        absolute(config_file) && parent_of(config_file) is Some ==> absolute(
            resolved_font_dir(config_file, font_dir),
        ),
{
    if absolute(config_file) && parent_of(config_file) is Some {
        lemma_parent_of_absolute(config_file);
    }
}

/// What is to be done for one missing font, as mathematical value.
pub enum StepKey {
    NotInLibrary,
    Copy { source: Seq<char>, dest: Seq<char> },
    Download { url: Seq<char>, dest: Seq<char> },
    Failed(FontError),
}

/// What is to be done for one missing font.
#[derive(Clone, Debug, PartialEq, Eq)]
pub enum UpdateStep {
    /// The library does not have the font: to be reported, no error.
    NotInLibrary,
    /// Copy the file `source` to `dest`.
    Copy { source: String, dest: String },
    /// Fetch `url` and write what comes to `dest`, creating the
    /// directories above it.
    Download { url: String, dest: String },
    /// Nothing can be done for this font; the other fonts are not
    /// affected.
    Failed(FontError),
}

impl View for UpdateStep {
    type V = StepKey;

    open spec fn view(&self) -> StepKey {
        match self {
            UpdateStep::NotInLibrary => StepKey::NotInLibrary,
            UpdateStep::Copy { source, dest } => StepKey::Copy { source: source@, dest: dest@ },
            UpdateStep::Download { url, dest } => StepKey::Download { url: url@, dest: dest@ },
            UpdateStep::Failed(e) => StepKey::Failed(*e),
        }
    }
}

/// A missing font and what is to be done for it.
#[derive(Clone, Debug, PartialEq, Eq)]
pub struct PlannedUpdate {
    pub font: TypstFont,
    pub step: UpdateStep,
}

/// The step for a font whose file the library keeps under `path`. The file
/// goes into the destination directory under its own name. From a local
/// library it is copied. From a remote one it is downloaded from the
/// address that the stored path stands for, which must have a repository
/// identifier and something after it.
pub open spec fn step_from(path: Seq<char>, remote: bool, dest_dir: Seq<char>) -> StepKey {
    if remote && !has_components(path, 3) {
        StepKey::Failed(FontError::InvalidRepoPath)
    } else if file_name_of(path) is None {
        StepKey::Failed(
            if remote {
                FontError::DownloadError
            } else {
                FontError::CopyError
            },
        )
    } else if remote {
        StepKey::Download {
            url: raw_content_url(repository_of(path), remainder_of(path)),
            dest: join_of(dest_dir, file_name_of(path)->0),
        }
    } else {
        StepKey::Copy { source: path, dest: join_of(dest_dir, file_name_of(path)->0) }
    }
}

/// The step for a missing font.
pub open spec fn step_for(
    library: Map<FontKey, Seq<char>>,
    remote: bool,
    dest_dir: Seq<char>,
    k: FontKey,
) -> StepKey {
    if library.dom().contains(k) {
        step_from(library[k], remote, dest_dir)
    } else {
        StepKey::NotInLibrary
    }
}

/// Decides what to do with the library file kept under `path`.
pub fn plan_step(path: &str, remote: bool, dest_dir: &str) -> (r: UpdateStep)
    ensures
        r@ == step_from(path@, remote, dest_dir@),
{
    if remote {
        match download_url(path) {
            Err(e) => UpdateStep::Failed(e),
            Ok(url) => match file_name(path) {
                None => UpdateStep::Failed(FontError::DownloadError),
                Some(name) => UpdateStep::Download { url, dest: join(dest_dir, name) },
            },
        }
    } else {
        match file_name(path) {
            None => UpdateStep::Failed(FontError::CopyError),
            Some(name) => UpdateStep::Copy {
                source: String::from_str(path),
                dest: join(dest_dir, name),
            },
        }
    }
}

/// Plans the repair: one step for each missing font, in the order of
/// identities.
pub fn plan_update(
    missing: &FontSet,
    library: &TypstFontLibrary,
    remote: bool,
    dest_dir: &str,
) -> (r: Vec<PlannedUpdate>)
    ensures
        ascending(missing.keys()),
        r@.len() == missing.keys().len(),
        forall|i: int|
            0 <= i < r@.len() ==> (#[trigger] r@[i]).font@ == missing.keys()[i] && r@[i].step@
                == step_for(library@, remote, dest_dir@, missing.keys()[i]),
{
    let mut plan: Vec<PlannedUpdate> = Vec::new();
    let n = missing.len();
    let mut i: usize = 0;
    while i < n
        invariant
            i <= n,
            n == missing.keys().len(),
            ascending(missing.keys()),
            plan@.len() == i,
            forall|j: int|
                0 <= j < i ==> (#[trigger] plan@[j]).font@ == missing.keys()[j] && plan@[j].step@
                    == step_for(library@, remote, dest_dir@, missing.keys()[j]),
        decreases n - i,
    {
        match missing.get(i) {
            Some(font) => {
                let step = match library.get(font) {
                    Some(path) => plan_step(path.as_str(), remote, dest_dir),
                    None => UpdateStep::NotInLibrary,
                };
                plan.push(PlannedUpdate { font: font.duplicate(), step });
            },
            None => {},
        }
        i = i + 1;
    }
    plan
}

/// What the user asked to be done.
#[derive(Clone, Copy, Debug, PartialEq, Eq, Hash, Structural)]
pub enum Action {
    /// Report only.
    Checking,
    /// Report, then fetch what is missing.
    Updating,
}

/// Everything one run knows.
#[derive(Debug, PartialEq, Eq)]
pub struct FontManager {
    /// Path of the manifest.
    pub config_file: String,
    /// The manifest.
    pub font_config: FontConfig,
    /// Where fonts may be taken from.
    pub library_dirs: LibraryDirs,
    /// The project's font directory, resolved.
    pub absolute_font_dir: String,
    /// The font sets.
    pub font_sets: FontSets,
    /// What is to be done.
    pub action: Action,
}

impl FontManager {
    /// Puts a run together from the command, the manifest, the fonts found
    /// in the project's font directory and the fonts the library offers.
    pub fn new(
        args: &FontCommand,
        action: Action,
        font_config: FontConfig,
        library_dirs: LibraryDirs,
        current: FontSet,
        library: TypstFontLibrary,
    ) -> (r: FontManager)
        ensures
            r.config_file@ == args.config@,
            r.font_config == font_config,
            r.library_dirs == library_dirs,
            r.action == action,
            r.absolute_font_dir@ == resolved_font_dir(args.config@, named_dir(&font_config)),
            r.font_sets.well_formed(),
            r.font_sets.required@ == crate::parse_font_config::keys_of(font_config.fonts@).to_set(),
            r.font_sets.current@ == current@,
            r.font_sets.embedded@ == Set::new(|k: FontKey| is_embedded(k)),
            r.font_sets.library@ == library@,
    {
        let absolute_font_dir = resolve_font_directory(args.config.as_str(), &font_config);
        let required = FontSet::from_fonts(&font_config.fonts);
        let font_sets = reconcile(required, current, embedded_fonts(), library);
        FontManager {
            config_file: args.config.clone(),
            font_config,
            library_dirs,
            absolute_font_dir,
            font_sets,
            action,
        }
    }

    /// Plans the repair of the missing fonts.
    pub fn update_fonts(&self) -> (r: Vec<PlannedUpdate>)
        ensures
            ascending(self.font_sets.missing.keys()),
            r@.len() == self.font_sets.missing.keys().len(),
            forall|i: int|
                0 <= i < r@.len() ==> (#[trigger] r@[i]).font@ == self.font_sets.missing.keys()[i]
                    && r@[i].step@ == step_for(
                    self.font_sets.library@,
                    self.library_dirs is GitHub,
                    self.absolute_font_dir@,
                    self.font_sets.missing.keys()[i],
                ),
    {
        plan_update(
            &self.font_sets.missing,
            &self.font_sets.library,
            self.library_dirs.is_remote(),
            self.absolute_font_dir.as_str(),
        )
    }
}

} // verus!
