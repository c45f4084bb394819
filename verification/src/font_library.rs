//! Font libraries: which file supplies which font.

use crate::font_set::{
    ascending, lemma_absent, lemma_ascending_distinct, lemma_insert_contains,
    lemma_insert_keeps_ascending, FontSet,
};
use crate::error::FontError;
use crate::parse_font_config::{
    key_lt, keys_of, parse_style, style_name, style_of_name, valid_stretch, valid_weight, FontKey,
    FontStyle, TypstFont,
};
use crate::paths::{join, join_of, strip_root, strip_root_of};
use crate::text::Rank;
use vstd::prelude::*;

verus! {

/// One font of a library and the path of the file that holds it.
#[derive(Clone, Debug, PartialEq, Eq)]
pub struct FontLibraryEntry {
    pub font: TypstFont,
    pub path: String,
}

/// The fonts of a list of entries, in the order of the list.
pub open spec fn entry_keys(entries: Seq<FontLibraryEntry>) -> Seq<FontKey> {
    entries.map_values(|e: FontLibraryEntry| e.font@)
}

/// The mapping from font to path that a list of entries stands for.
pub open spec fn mapping_of(entries: Seq<FontLibraryEntry>) -> Map<FontKey, Seq<char>> {
    Map::new(
        |k: FontKey| entry_keys(entries).contains(k),
        |k: FontKey| entries[entry_keys(entries).index_of(k)].path@,
    )
}

/// In an ascending list each entry's font is mapped to that entry's path.
pub proof fn lemma_mapping_at(entries: Seq<FontLibraryEntry>, j: int)
    requires
        ascending(entry_keys(entries)),
        0 <= j < entries.len(),
    ensures
        mapping_of(entries).dom().contains(entries[j].font@),
        mapping_of(entries)[entries[j].font@] == entries[j].path@,
{
    let keys = entry_keys(entries);
    assert(keys[j] == entries[j].font@);
    let at = keys.index_of(keys[j]);
    lemma_ascending_distinct(keys, at, j);
}

/// A mapping with the fonts of an ascending list as its domain, which maps
/// each entry's font to that entry's path, is the mapping of the list.
pub proof fn lemma_mapping_is(entries: Seq<FontLibraryEntry>, m: Map<FontKey, Seq<char>>)
    requires
        ascending(entry_keys(entries)),
        forall|k: FontKey| m.dom().contains(k) <==> entry_keys(entries).contains(k),
        forall|j: int| 0 <= j < entries.len() ==> m[(#[trigger] entries[j]).font@] == entries[j].path@,
    ensures
        mapping_of(entries) == m,
{
    let keys = entry_keys(entries);
    assert forall|k: FontKey| mapping_of(entries).dom().contains(k) implies mapping_of(entries)[k]
        == m[k] by {
        let at = keys.index_of(k);
        assert(keys[at] == entries[at].font@);
    }
    assert(mapping_of(entries) =~= m);
}

/// The path under which a font is kept once the library root is taken off:
/// the path itself where it does not lie below the root.
pub open spec fn relative_to(path: Seq<char>, root: Seq<char>) -> Seq<char> {
    match strip_root_of(path, root) {
        Some(rest) => rest,
        None => path,
    }
}

/// The mapping that gives every font of `faces` the path `path`.
pub open spec fn faces_at(faces: Seq<FontKey>, path: Seq<char>) -> Map<FontKey, Seq<char>> {
    Map::new(|k: FontKey| faces.contains(k), |k: FontKey| path)
}

/// The mapping that results from recording the entries of a list one after
/// the other: where a font occurs twice, its last path stands.
pub open spec fn collected(entries: Seq<FontLibraryEntry>) -> Map<FontKey, Seq<char>>
    decreases entries.len(),
{
    if entries.len() == 0 {
        Map::empty()
    } else {
        collected(entries.drop_last()).insert(entries.last().font@, entries.last().path@)
    }
}

/// A font library: a mapping from font to the path of its file. It hands
/// its entries out in the order of identities.
#[derive(Debug, PartialEq, Eq)]
pub struct TypstFontLibrary {
    entries: Vec<FontLibraryEntry>,
}

impl View for TypstFontLibrary {
    type V = Map<FontKey, Seq<char>>;

    closed spec fn view(&self) -> Map<FontKey, Seq<char>> {
        mapping_of(self.entries@)
    }
}

impl TypstFontLibrary {
    #[verifier::type_invariant]
    spec fn ordered(self) -> bool {
        ascending(entry_keys(self.entries@))
    }

    /// The fonts in the order in which the entries are handed out.
    pub closed spec fn keys(&self) -> Seq<FontKey> {
        entry_keys(self.entries@)
    }

    /// The empty library.
    pub fn new() -> (r: TypstFontLibrary)
        ensures
            r@ == Map::<FontKey, Seq<char>>::empty(),
            r.keys() == Seq::<FontKey>::empty(),
    {
        let r = TypstFontLibrary { entries: Vec::new() };
        assert(r@ =~= Map::<FontKey, Seq<char>>::empty());
        assert(r.keys() =~= Seq::<FontKey>::empty());
        r
    }

    /// The number of fonts.
    pub fn len(&self) -> (n: usize)
        ensures
            n == self.keys().len(),
            n == self@.dom().len(),
            ascending(self.keys()),
    {
        proof {
            use_type_invariant(self);
            let keys = self.keys();
            assert(keys.no_duplicates()) by {
                assert forall|i: int, j: int|
                    0 <= i < keys.len() && 0 <= j < keys.len() && i != j implies keys[i]
                    != keys[j] by {
                    if keys[i] == keys[j] {
                        lemma_ascending_distinct(keys, i, j);
                    }
                }
            }
            keys.unique_seq_to_set();
            assert(self@.dom() =~= keys.to_set());
        }
        self.entries.len()
    }

    /// Whether the library holds no font.
    pub fn is_empty(&self) -> (r: bool)
        ensures
            r == (self.keys().len() == 0),
            r == (self@ == Map::<FontKey, Seq<char>>::empty()),
    {
        proof {
            use_type_invariant(self);
            if self.entries@.len() == 0 {
                assert(self@ =~= Map::<FontKey, Seq<char>>::empty());
            } else {
                lemma_mapping_at(self.entries@, 0);
            }
        }
        self.entries.len() == 0
    }

    /// The entry at place `i` of the order.
    pub fn entry(&self, i: usize) -> (r: Option<&FontLibraryEntry>)
        ensures
            ascending(self.keys()),
            r is Some <==> i < self.keys().len(),
            r is Some ==> r->0.font@ == self.keys()[i as int] && self@.dom().contains(r->0.font@)
                && self@[r->0.font@] == r->0.path@,
    {
        proof {
            use_type_invariant(self);
        }
        if i < self.entries.len() {
            proof {
                lemma_mapping_at(self.entries@, i as int);
            }
            Some(&self.entries[i])
        } else {
            None
        }
    }

    fn locate(&self, font: &TypstFont) -> (r: (usize, bool))
        ensures
            r.0 <= self.keys().len(),
            forall|j: int| 0 <= j < r.0 ==> key_lt(self.keys()[j], font@),
            r.1 ==> r.0 < self.keys().len() && self.keys()[r.0 as int] == font@,
            !r.1 ==> r.0 == self.keys().len() || key_lt(font@, self.keys()[r.0 as int]),
    {
        let n = self.entries.len();
        let mut i: usize = 0;
        while i < n
            invariant
                i <= n,
                n == self.keys().len(),
                n == self.entries@.len(),
                forall|j: int| 0 <= j < i ==> key_lt(self.keys()[j], font@),
            decreases n - i,
        {
            match self.entries[i].font.rank(font) {
                Rank::Before => {},
                Rank::Same => {
                    return (i, true);
                },
                Rank::After => {
                    return (i, false);
                },
            }
            i = i + 1;
        }
        (n, false)
    }

    /// The path of the file that holds `font`, if the library has it.
    pub fn get(&self, font: &TypstFont) -> (r: Option<&String>)
        ensures
            r is Some <==> self@.dom().contains(font@),
            r is Some ==> r->0@ == self@[font@],
    {
        let (i, found) = self.locate(font);
        proof {
            use_type_invariant(self);
        }
        if found {
            proof {
                lemma_mapping_at(self.entries@, i as int);
            }
            Some(&self.entries[i].path)
        } else {
            proof {
                lemma_absent(self.keys(), i as int, font@);
            }
            None
        }
    }

    /// Whether the library has `font`.
    pub fn contains_key(&self, font: &TypstFont) -> (r: bool)
        ensures
            r == self@.dom().contains(font@),
    {
        self.get(font).is_some()
    }

    /// Records that `path` holds `font`. A path recorded earlier for the
    /// same font is replaced.
    pub fn insert(&mut self, font: TypstFont, path: String)
        ensures
            final(self)@ == old(self)@.insert(font@, path@),
            ascending(final(self).keys()),
    {
        let (i, found) = self.locate(&font);
        proof {
            use_type_invariant(&*self);
        }
        let ghost before = self.entries@;
        let ghost target = self@.insert(font@, path@);
        let entry = FontLibraryEntry { font, path };
        let mut entries: Vec<FontLibraryEntry> = Vec::new();
        std::mem::swap(&mut self.entries, &mut entries);
        if found {
            entries.set(i, entry);
            proof {
                assert(entry_keys(entries@) =~= entry_keys(before));
                assert forall|j: int| 0 <= j < entries@.len() implies target[(
                #[trigger] entries@[j]).font@] == entries@[j].path@ by {
                    if j != i {
                        lemma_mapping_at(before, j);
                        lemma_mapping_at(before, i as int);
                        if before[j].font@ == before[i as int].font@ {
                            lemma_ascending_distinct(entry_keys(before), j, i as int);
                        }
                    }
                }
                assert forall|k: FontKey|
                    target.dom().contains(k) <==> entry_keys(entries@).contains(k) by {
                    assert(entry_keys(before)[i as int] == entry.font@);
                }
                lemma_mapping_is(entries@, target);
            }
        } else {
            entries.insert(i, entry);
            proof {
                let keys = entry_keys(before);
                lemma_absent(keys, i as int, entry.font@);
                lemma_insert_keeps_ascending(keys, i as int, entry.font@);
                before.insert_ensures(i as int, entry);
                assert(entry_keys(entries@) =~= keys.insert(i as int, entry.font@));
                assert forall|k: FontKey|
                    target.dom().contains(k) <==> entry_keys(entries@).contains(k) by {
                    lemma_insert_contains(keys, i as int, entry.font@, k);
                }
                assert forall|j: int| 0 <= j < entries@.len() implies target[(
                #[trigger] entries@[j]).font@] == entries@[j].path@ by {
                    if j < i {
                        assert(entries@[j] == before[j]);
                        lemma_mapping_at(before, j);
                        assert(keys.contains(keys[j]));
                    } else if j > i {
                        assert(entries@[j] == before[j - 1]);
                        lemma_mapping_at(before, j - 1);
                        assert(keys.contains(keys[j - 1]));
                    }
                }
                lemma_mapping_is(entries@, target);
            }
        }
        self.entries = entries;
    }

    /// The library that a list of entries describes, such as the entries of
    /// a library manifest.
    pub fn from_entries(entries: &Vec<FontLibraryEntry>) -> (r: TypstFontLibrary)
        ensures
            r@ == collected(entries@),
    {
        let mut library = TypstFontLibrary::new();
        let n = entries.len();
        let mut i: usize = 0;
        while i < n
            invariant
                i <= n,
                n == entries@.len(),
                library@ == collected(entries@.take(i as int)),
            decreases n - i,
        {
            proof {
                assert(entries@.take(i + 1).drop_last() =~= entries@.take(i as int));
            }
            library.insert(entries[i].font.duplicate(), entries[i].path.clone());
            i = i + 1;
        }
        proof {
            assert(entries@.take(n as int) =~= entries@);
        }
        library
    }

    /// The entries in the order of identities.
    pub fn to_entries(&self) -> (r: Vec<FontLibraryEntry>)
        ensures
            ascending(self.keys()),
            entry_keys(r@) == self.keys(),
            mapping_of(r@) == self@,
    {
        proof {
            use_type_invariant(self);
        }
        let mut out: Vec<FontLibraryEntry> = Vec::new();
        let n = self.entries.len();
        let mut i: usize = 0;
        while i < n
            invariant
                i <= n,
                n == self.entries@.len(),
                out@.len() == i,
                forall|j: int|
                    0 <= j < i ==> (#[trigger] out@[j]).font@ == self.entries@[j].font@
                        && out@[j].path@ == self.entries@[j].path@,
            decreases n - i,
        {
            out.push(
                FontLibraryEntry {
                    font: self.entries[i].font.duplicate(),
                    path: self.entries[i].path.clone(),
                },
            );
            i = i + 1;
        }
        proof {
            assert(entry_keys(out@) =~= entry_keys(self.entries@));
            assert forall|j: int| 0 <= j < out@.len() implies self@[(#[trigger] out@[j]).font@]
                == out@[j].path@ by {
                lemma_mapping_at(self.entries@, j);
            }
            lemma_mapping_is(out@, self@);
        }
        out
    }

    /// The fonts of the library, as a set.
    pub fn fonts(&self) -> (r: FontSet)
        ensures
            r@ == self@.dom(),
    {
        proof {
            use_type_invariant(self);
        }
        let mut set = FontSet::new();
        let n = self.entries.len();
        let mut i: usize = 0;
        while i < n
            invariant
                i <= n,
                n == self.entries@.len(),
                set@ == entry_keys(self.entries@).take(i as int).to_set(),
            decreases n - i,
        {
            proof {
                let seen = entry_keys(self.entries@).take(i as int);
                let next = entry_keys(self.entries@).take(i + 1);
                let k = self.entries@[i as int].font@;
                assert(seen.insert(i as int, k) =~= next);
                assert forall|x: FontKey| next.contains(x) <==> (x == k || seen.contains(x)) by {
                    lemma_insert_contains(seen, i as int, k, x);
                }
                assert(next.to_set() =~= seen.to_set().insert(k));
            }
            set.insert(self.entries[i].font.duplicate());
            i = i + 1;
        }
        proof {
            assert(entry_keys(self.entries@).take(n as int) =~= entry_keys(self.entries@));
            assert(set@ =~= self@.dom());
        }
        set
    }

    /// Records that the file at `path` holds each of `faces`.
    pub fn record_faces(&mut self, faces: &Vec<TypstFont>, path: &str)
        ensures
            final(self)@ == old(self)@.union_prefer_right(faces_at(keys_of(faces@), path@)),
    {
        let n = faces.len();
        let mut i: usize = 0;
        while i < n
            invariant
                i <= n,
                n == faces@.len(),
                self@ == old(self)@.union_prefer_right(
                    faces_at(keys_of(faces@).take(i as int), path@),
                ),
            decreases n - i,
        {
            proof {
                let seen = keys_of(faces@).take(i as int);
                let next = keys_of(faces@).take(i + 1);
                let k = faces@[i as int]@;
                assert(seen.insert(i as int, k) =~= next);
                assert forall|x: FontKey| next.contains(x) <==> (x == k || seen.contains(x)) by {
                    lemma_insert_contains(seen, i as int, k, x);
                }
                assert(faces_at(next, path@) =~= faces_at(seen, path@).insert(k, path@));
                assert(old(self)@.union_prefer_right(faces_at(next, path@)) =~= old(
                    self,
                )@.union_prefer_right(faces_at(seen, path@)).insert(k, path@));
            }
            self.insert(faces[i].duplicate(), String::from_str(path));
            i = i + 1;
        }
        proof {
            assert(keys_of(faces@).take(n as int) =~= keys_of(faces@));
        }
    }

    /// Takes over every entry of `other`. Where both libraries have a font,
    /// the path of `other` stands.
    pub fn extend(&mut self, other: &TypstFontLibrary)
        ensures
            final(self)@ == old(self)@.union_prefer_right(other@),
    {
        proof {
            use_type_invariant(other);
        }
        let n = other.entries.len();
        let mut i: usize = 0;
        while i < n
            invariant
                i <= n,
                n == other.entries@.len(),
                ascending(entry_keys(other.entries@)),
                self@ == old(self)@.union_prefer_right(mapping_of(other.entries@.take(i as int))),
            decreases n - i,
        {
            proof {
                let seen = other.entries@.take(i as int);
                let next = other.entries@.take(i + 1);
                let e = other.entries@[i as int];
                let grown = mapping_of(seen).insert(e.font@, e.path@);
                assert(entry_keys(seen) =~= entry_keys(other.entries@).take(i as int));
                assert(entry_keys(next) =~= entry_keys(other.entries@).take(i + 1));
                assert(entry_keys(seen).insert(i as int, e.font@) =~= entry_keys(next));
                assert forall|k: FontKey|
                    grown.dom().contains(k) <==> entry_keys(next).contains(k) by {
                    lemma_insert_contains(entry_keys(seen), i as int, e.font@, k);
                }
                assert forall|j: int| 0 <= j < next.len() implies grown[(#[trigger] next[j]).font@]
                    == next[j].path@ by {
                    if j < i {
                        assert(next[j] == seen[j]);
                        lemma_mapping_at(seen, j);
                        if seen[j].font@ == e.font@ {
                            lemma_ascending_distinct(entry_keys(other.entries@), j, i as int);
                        }
                    }
                }
                lemma_mapping_is(next, grown);
                assert(old(self)@.union_prefer_right(grown) =~= old(self)@.union_prefer_right(
                    mapping_of(seen),
                ).insert(e.font@, e.path@));
            }
            self.insert(other.entries[i].font.duplicate(), other.entries[i].path.clone());
            i = i + 1;
        }
        proof {
            assert(other.entries@.take(n as int) =~= other.entries@);
        }
    }

    /// Puts the repository identifier in front of every path, so that each
    /// stored path names the repository its file comes from.
    pub fn prefix_with_repository(&mut self, repository: &str)
        ensures
            final(self)@ == old(self)@.map_values(|p: Seq<char>| join_of(repository@, p)),
            final(self).keys() == old(self).keys(),
    {
        proof {
            use_type_invariant(&*self);
        }
        let ghost before = self.entries@;
        let ghost target = self@.map_values(|p: Seq<char>| join_of(repository@, p));
        let mut out: Vec<FontLibraryEntry> = Vec::new();
        let n = self.entries.len();
        let mut i: usize = 0;
        while i < n
            invariant
                i <= n,
                n == self.entries@.len(),
                self.entries@ == before,
                out@.len() == i,
                forall|j: int|
                    0 <= j < i ==> (#[trigger] out@[j]).font@ == before[j].font@ && out@[j].path@
                        == join_of(repository@, before[j].path@),
            decreases n - i,
        {
            let moved = FontLibraryEntry {
                font: self.entries[i].font.duplicate(),
                path: join(repository, self.entries[i].path.as_str()),
            };
            out.push(moved);
            i = i + 1;
        }
        proof {
            assert(entry_keys(out@) =~= entry_keys(before));
            assert forall|j: int| 0 <= j < out@.len() implies target[(#[trigger] out@[j]).font@]
                == out@[j].path@ by {
                lemma_mapping_at(before, j);
            }
            lemma_mapping_is(out@, target);
        }
        self.entries = out;
    }
}

/// A file of a font directory and the faces found in it.
#[derive(Clone, Debug, PartialEq, Eq)]
pub struct FontFile {
    pub path: String,
    pub faces: Vec<TypstFont>,
}

/// The index of a list of font files: every face is mapped to the file
/// that holds it; where several files hold a face, the last of them stands.
pub open spec fn indexed(files: Seq<FontFile>) -> Map<FontKey, Seq<char>>
    decreases files.len(),
{
    if files.len() == 0 {
        Map::empty()
    } else {
        indexed(files.drop_last()).union_prefer_right(
            faces_at(keys_of(files.last().faces@), files.last().path@),
        )
    }
}

/// Indexes the files found below a font directory, in the order in which
/// they were found.
pub fn create_font_path_map(files: &Vec<FontFile>) -> (r: TypstFontLibrary)
    ensures
        r@ == indexed(files@),
{
    let mut library = TypstFontLibrary::new();
    let n = files.len();
    let mut i: usize = 0;
    while i < n
        invariant
            i <= n,
            n == files@.len(),
            library@ == indexed(files@.take(i as int)),
        decreases n - i,
    {
        proof {
            assert(files@.take(i + 1).drop_last() =~= files@.take(i as int));
        }
        library.record_faces(&files[i].faces, files[i].path.as_str());
        i = i + 1;
    }
    proof {
        assert(files@.take(n as int) =~= files@);
    }
    library
}

/// The library that a repository publishes: the entries of its library
/// manifest, each path with the repository identifier put in front.
pub fn get_github_font_library_info(
    github_repo: &str,
    manifest_entries: &Vec<FontLibraryEntry>,
) -> (r: TypstFontLibrary)
    ensures
        r@ == collected(manifest_entries@).map_values(|p: Seq<char>| join_of(github_repo@, p)),
{
    let mut library = TypstFontLibrary::from_entries(manifest_entries);
    library.prefix_with_repository(github_repo);
    library
}

/// One entry of a library manifest as written: style, weight and stretch
/// may be missing.
#[derive(Clone, Debug, PartialEq, Eq)]
pub struct LibraryRecord {
    pub family_name: String,
    pub style: Option<String>,
    pub weight: Option<i64>,
    pub stretch: Option<i64>,
    /// Path of the font file, relative to the root of the library.
    pub path: String,
}

impl LibraryRecord {
    /// The style written: `Normal` where none is, nothing where the name
    /// written is no style.
    pub open spec fn written_style(&self) -> Option<FontStyle> {
        match self.style {
            None => Some(FontStyle::Normal),
            Some(name) => style_of_name(name@),
        }
    }

    /// The weight written: 400 where none is.
    pub open spec fn written_weight(&self) -> int {
        match self.weight {
            None => 400,
            Some(w) => w as int,
        }
    }

    /// The stretch written: 1000 where none is.
    pub open spec fn written_stretch(&self) -> int {
        match self.stretch {
            None => 1000,
            Some(s) => s as int,
        }
    }

    /// The font that the record names, if it follows the schema.
    pub open spec fn font(&self) -> Option<FontKey> {
        if self.written_style() is Some && valid_weight(self.written_weight()) && valid_stretch(
            self.written_stretch(),
        ) {
            Some(
                FontKey {
                    family: self.family_name@,
                    style: self.written_style()->0,
                    weight: self.written_weight() as u16,
                    stretch: self.written_stretch() as u16,
                },
            )
        } else {
            None
        }
    }

    /// Reads the record.
    pub fn read(&self) -> (r: Result<FontLibraryEntry, FontError>)
        ensures
            r is Ok <==> self.font() is Some,
            r is Ok ==> r->Ok_0.font@ == self.font()->0 && r->Ok_0.path@ == self.path@,
            r is Err ==> r->Err_0 == FontError::ManifestParseError,
    {
        let style = match &self.style {
            None => FontStyle::Normal,
            Some(name) => match parse_style(name.as_str()) {
                Some(style) => style,
                None => {
                    return Err(FontError::ManifestParseError);
                },
            },
        };
        let weight: i64 = match self.weight {
            None => 400,
            Some(w) => w,
        };
        let stretch: i64 = match self.stretch {
            None => 1000,
            Some(s) => s,
        };
        if weight < 1 || weight > 1000 || stretch < 0 || stretch > 0xffff {
            return Err(FontError::ManifestParseError);
        }
        Ok(
            FontLibraryEntry {
                font: TypstFont {
                    family_name: self.family_name.clone(),
                    style,
                    weight: weight as u16,
                    stretch: stretch as u16,
                },
                path: self.path.clone(),
            },
        )
    }

    /// The record that stands for an entry, every field written out.
    pub fn write(entry: &FontLibraryEntry) -> (r: LibraryRecord)
        ensures
            r.family_name@ == entry.font.family_name@,
            r.written_style() == Some(entry.font.style),
            r.weight == Some(entry.font.weight as i64),
            r.stretch == Some(entry.font.stretch as i64),
            r.path@ == entry.path@,
            entry.font.well_formed() <==> r.font() is Some,
            entry.font.well_formed() ==> r.font() == Some(entry.font@),
    {
        LibraryRecord {
            family_name: entry.font.family_name.clone(),
            style: Some(String::from_str(style_name(entry.font.style))),
            weight: Some(entry.font.weight as i64),
            stretch: Some(entry.font.stretch as i64),
            path: entry.path.clone(),
        }
    }
}

/// Reads a library manifest: every record must follow the schema.
pub fn read_library_manifest(records: &Vec<LibraryRecord>) -> (r: Result<
    Vec<FontLibraryEntry>,
    FontError,
>)
    ensures
        r is Ok <==> forall|i: int| 0 <= i < records@.len() ==> (#[trigger] records@[i]).font() is Some,
        r is Ok ==> r->Ok_0@.len() == records@.len() && forall|i: int|
            0 <= i < records@.len() ==> (#[trigger] r->Ok_0@[i]).font@ == records@[i].font()->0
                && r->Ok_0@[i].path@ == records@[i].path@,
        r is Err ==> r->Err_0 == FontError::ManifestParseError,
{
    let mut entries: Vec<FontLibraryEntry> = Vec::new();
    let n = records.len();
    let mut i: usize = 0;
    while i < n
        invariant
            i <= n,
            n == records@.len(),
            entries@.len() == i,
            forall|j: int| 0 <= j < i ==> (#[trigger] records@[j]).font() is Some,
            forall|j: int|
                0 <= j < i ==> (#[trigger] entries@[j]).font@ == records@[j].font()->0
                    && entries@[j].path@ == records@[j].path@,
        decreases n - i,
    {
        match records[i].read() {
            Ok(entry) => {
                entries.push(entry);
            },
            Err(e) => {
                return Err(e);
            },
        }
        i = i + 1;
    }
    Ok(entries)
}

/// Writes a library as the records of its manifest, in the order of
/// identities. Reading the records gives the entries back.
pub fn write_library_manifest(library: &TypstFontLibrary) -> (r: Vec<LibraryRecord>)
    ensures
        ascending(library.keys()),
        r@.len() == library.keys().len(),
        forall|i: int|
            0 <= i < r@.len() ==> {
                &&& (#[trigger] r@[i]).family_name@ == library.keys()[i].family
                &&& r@[i].written_style() == Some(library.keys()[i].style)
                &&& r@[i].written_weight() == library.keys()[i].weight
                &&& r@[i].written_stretch() == library.keys()[i].stretch
                &&& r@[i].path@ == library@[library.keys()[i]]
                &&& valid_weight(library.keys()[i].weight as int) ==> r@[i].font() == Some(
                    library.keys()[i],
                )
            },
{
    let entries = library.to_entries();
    let mut records: Vec<LibraryRecord> = Vec::new();
    let n = entries.len();
    let mut i: usize = 0;
    while i < n
        invariant
            i <= n,
            n == entries@.len(),
            records@.len() == i,
            entry_keys(entries@) == library.keys(),
            mapping_of(entries@) == library@,
            ascending(library.keys()),
            forall|j: int|
                0 <= j < i ==> {
                    &&& (#[trigger] records@[j]).family_name@ == library.keys()[j].family
                    &&& records@[j].written_style() == Some(library.keys()[j].style)
                    &&& records@[j].written_weight() == library.keys()[j].weight
                    &&& records@[j].written_stretch() == library.keys()[j].stretch
                    &&& records@[j].path@ == library@[library.keys()[j]]
                    &&& valid_weight(library.keys()[j].weight as int) ==> records@[j].font()
                        == Some(library.keys()[j])
                },
        decreases n - i,
    {
        proof {
            lemma_mapping_at(entries@, i as int);
            assert(entry_keys(entries@)[i as int] == entries@[i as int].font@);
        }
        records.push(LibraryRecord::write(&entries[i]));
        i = i + 1;
    }
    records
}

/// The library manifest of one repository, as fetched.
#[derive(Clone, Debug, PartialEq, Eq)]
pub struct RepositoryManifest {
    /// The repository, written `owner/repo`.
    pub repository: String,
    /// The entries of its manifest, with paths relative to the repository.
    pub entries: Vec<FontLibraryEntry>,
}

/// What was found at the font sources: the files of the local directories,
/// in the order of the directories, or the manifests of the repositories,
/// in the order of the repositories.
#[derive(Clone, Debug, PartialEq, Eq)]
pub enum LibraryContents {
    Local(Vec<FontFile>),
    GitHub(Vec<RepositoryManifest>),
}

/// The mapping that one repository offers.
pub open spec fn repository_mapping(manifest: RepositoryManifest) -> Map<FontKey, Seq<char>> {
    collected(manifest.entries@).map_values(|p: Seq<char>| join_of(manifest.repository@, p))
}

/// The mapping that several repositories offer together: where two offer
/// the same font, the later one stands.
pub open spec fn merged(manifests: Seq<RepositoryManifest>) -> Map<FontKey, Seq<char>>
    decreases manifests.len(),
{
    if manifests.len() == 0 {
        Map::empty()
    } else {
        merged(manifests.drop_last()).union_prefer_right(repository_mapping(manifests.last()))
    }
}

/// The mapping that the font sources offer.
pub open spec fn resolved(contents: LibraryContents) -> Map<FontKey, Seq<char>> {
    match contents {
        LibraryContents::Local(files) => indexed(files@),
        LibraryContents::GitHub(manifests) => merged(manifests@),
    }
}

/// Resolves the font sources to the one mapping they offer. A later
/// directory or repository overrides an earlier one.
pub fn create_font_path_map_from_dirs(contents: &LibraryContents) -> (r: TypstFontLibrary)
    ensures
        r@ == resolved(*contents),
{
    match contents {
        LibraryContents::Local(files) => create_font_path_map(files),
        LibraryContents::GitHub(manifests) => {
            let mut library = TypstFontLibrary::new();
            let n = manifests.len();
            let mut i: usize = 0;
            while i < n
                invariant
                    i <= n,
                    n == manifests@.len(),
                    library@ == merged(manifests@.take(i as int)),
                decreases n - i,
            {
                proof {
                    assert(manifests@.take(i + 1).drop_last() =~= manifests@.take(i as int));
                }
                let offered = get_github_font_library_info(
                    manifests[i].repository.as_str(),
                    &manifests[i].entries,
                );
                library.extend(&offered);
                i = i + 1;
            }
            proof {
                assert(manifests@.take(n as int) =~= manifests@);
            }
            library
        },
    }
}

/// Takes the library root off every path that lies below it, so that the
/// paths are relative to the root; other paths stay as they are.
pub fn strip_library_root_path(font_lib_map: &mut TypstFontLibrary, library_root_path: &str)
    ensures
        final(font_lib_map)@ == old(font_lib_map)@.map_values(
            |p: Seq<char>| relative_to(p, library_root_path@),
        ),
        final(font_lib_map).keys() == old(font_lib_map).keys(),
{
    font_lib_map.strip_root_from_paths(library_root_path);
}

impl TypstFontLibrary {
    fn strip_root_from_paths(&mut self, root: &str)
        ensures
            final(self)@ == old(self)@.map_values(|p: Seq<char>| relative_to(p, root@)),
            final(self).keys() == old(self).keys(),
    {
        proof {
            use_type_invariant(&*self);
        }
        let ghost before = self.entries@;
        let ghost target = self@.map_values(|p: Seq<char>| relative_to(p, root@));
        let mut out: Vec<FontLibraryEntry> = Vec::new();
        let n = self.entries.len();
        let mut i: usize = 0;
        while i < n
            invariant
                i <= n,
                n == self.entries@.len(),
                self.entries@ == before,
                out@.len() == i,
                forall|j: int|
                    0 <= j < i ==> (#[trigger] out@[j]).font@ == before[j].font@ && out@[j].path@
                        == relative_to(before[j].path@, root@),
            decreases n - i,
        {
            let path = match strip_root(self.entries[i].path.as_str(), root) {
                Some(rest) => String::from_str(rest),
                None => self.entries[i].path.clone(),
            };
            out.push(FontLibraryEntry { font: self.entries[i].font.duplicate(), path });
            i = i + 1;
        }
        proof {
            assert(entry_keys(out@) =~= entry_keys(before));
            assert forall|j: int| 0 <= j < out@.len() implies target[(#[trigger] out@[j]).font@]
                == out@[j].path@ by {
                lemma_mapping_at(before, j);
            }
            lemma_mapping_is(out@, target);
        }
        self.entries = out;
    }
}

} // verus!
