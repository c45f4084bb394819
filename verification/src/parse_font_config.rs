//! Font identities and the project manifest.

use crate::error::FontError;
use crate::text::{decimal, decimal_text, pad, padded};
use crate::text::{eq_ignoring_case, fold_char, rank_text, same_folded, text_lt, Rank};
use crate::text::{lemma_text_lt_asymmetric, lemma_text_lt_total, lemma_text_lt_transitive};
use vstd::prelude::*;

verus! {

/// The slant of a face.
#[derive(Clone, Copy, Debug, PartialEq, Eq, PartialOrd, Ord, Hash, Structural)]
pub enum FontStyle {
    Normal,
    Italic,
    Oblique,
}

/// The default weight of a requirement that names none.
pub const DEFAULT_WEIGHT: u16 = 400;

/// The default stretch of a requirement that names none, in thousandths.
pub const DEFAULT_STRETCH: u16 = 1000;

/// The place of a style in the order of styles.
pub open spec fn style_rank(s: FontStyle) -> int {
    match s {
        FontStyle::Normal => 0,
        FontStyle::Italic => 1,
        FontStyle::Oblique => 2,
    }
}

/// A font identity as a mathematical value.
pub struct FontKey {
    pub family: Seq<char>,
    pub style: FontStyle,
    pub weight: u16,
    pub stretch: u16,
}

/// The strict total order of identities: by family name, then style, then
/// weight, then stretch.
pub open spec fn key_lt(a: FontKey, b: FontKey) -> bool {
    if a.family != b.family {
        text_lt(a.family, b.family)
    } else if a.style != b.style {
        style_rank(a.style) < style_rank(b.style)
    } else if a.weight != b.weight {
        a.weight < b.weight
    } else {
        a.stretch < b.stretch
    }
}

/// No identity sorts before itself.
pub proof fn lemma_key_lt_irreflexive(a: FontKey)
    ensures
        !key_lt(a, a),
{
}

/// Of two identities that sort one before the other, only one does.
pub proof fn lemma_key_lt_asymmetric(a: FontKey, b: FontKey)
    requires
        key_lt(a, b),
    ensures
        !key_lt(b, a),
{
    if a.family != b.family {
        lemma_text_lt_asymmetric(a.family, b.family, 0);
    }
}

/// The order of identities is transitive.
pub proof fn lemma_key_lt_transitive(a: FontKey, b: FontKey, c: FontKey)
    requires
        key_lt(a, b),
        key_lt(b, c),
    ensures
        key_lt(a, c),
{
    if a.family != b.family && b.family != c.family {
        lemma_text_lt_transitive(a.family, b.family, c.family, 0);
        lemma_text_lt_asymmetric(a.family, b.family, 0);
    }
}

/// Two identities are equal, or one sorts before the other.
pub proof fn lemma_key_lt_total(a: FontKey, b: FontKey)
    ensures
        a == b || key_lt(a, b) || key_lt(b, a),
{
    if a.family != b.family {
        lemma_text_lt_total(a.family, b.family, 0);
        if !text_lt(a.family, b.family) && !text_lt(b.family, a.family) {
            assert(a.family =~= b.family);
        }
    }
}

/// A font face, identified by family name, style, weight and stretch. Two
/// identities are the same only if all four agree.
#[derive(Clone, Debug, PartialEq, Eq, PartialOrd, Ord, Hash)]
pub struct TypstFont {
    pub family_name: String,
    pub style: FontStyle,
    /// From 1 (thinnest) to 1000 (boldest).
    pub weight: u16,
    /// Width in thousandths of the normal width.
    pub stretch: u16,
}

impl View for TypstFont {
    type V = FontKey;

    open spec fn view(&self) -> FontKey {
        FontKey {
            family: self.family_name@,
            style: self.style,
            weight: self.weight,
            stretch: self.stretch,
        }
    }
}

/// The identities of a list of fonts, in the order of the list.
pub open spec fn keys_of(fonts: Seq<TypstFont>) -> Seq<FontKey> {
    fonts.map_values(|f: TypstFont| f@)
}

fn rank_style(a: FontStyle, b: FontStyle) -> (r: Rank)
    ensures
        r == Rank::Before <==> style_rank(a) < style_rank(b),
        r == Rank::Same <==> a == b,
        r == Rank::After <==> style_rank(b) < style_rank(a),
{
    match (a, b) {
        (FontStyle::Normal, FontStyle::Normal) => Rank::Same,
        (FontStyle::Italic, FontStyle::Italic) => Rank::Same,
        (FontStyle::Oblique, FontStyle::Oblique) => Rank::Same,
        (FontStyle::Normal, _) => Rank::Before,
        (_, FontStyle::Normal) => Rank::After,
        (FontStyle::Italic, _) => Rank::Before,
        (_, _) => Rank::After,
    }
}

fn rank_number(a: u16, b: u16) -> (r: Rank)
    ensures
        r == Rank::Before <==> a < b,
        r == Rank::Same <==> a == b,
        r == Rank::After <==> b < a,
{
    if a < b {
        Rank::Before
    } else if a == b {
        Rank::Same
    } else {
        Rank::After
    }
}

impl TypstFont {
    /// Whether the weight lies in the range of weights.
    pub open spec fn well_formed(&self) -> bool {
        valid_weight(self.weight as int)
    }

    /// Where this identity stands to `other` in the order of identities.
    pub fn rank(&self, other: &TypstFont) -> (r: Rank)
        ensures
            r == Rank::Before <==> key_lt(self@, other@),
            r == Rank::Same <==> self@ == other@,
            r == Rank::After <==> key_lt(other@, self@),
    {
        proof {
            lemma_key_lt_total(self@, other@);
            if key_lt(self@, other@) {
                lemma_key_lt_asymmetric(self@, other@);
            }
        }
        let by_family = rank_text(self.family_name.as_str(), other.family_name.as_str());
        if by_family != Rank::Same {
            return by_family;
        }
        let by_style = rank_style(self.style, other.style);
        if by_style != Rank::Same {
            return by_style;
        }
        let by_weight = rank_number(self.weight, other.weight);
        if by_weight != Rank::Same {
            return by_weight;
        }
        rank_number(self.stretch, other.stretch)
    }

    /// Whether both are the same identity.
    pub fn same_as(&self, other: &TypstFont) -> (r: bool)
        ensures
            r == (self@ == other@),
    {
        self.rank(other) == Rank::Same
    }

    /// A copy of this identity.
    pub fn duplicate(&self) -> (r: TypstFont)
        ensures
            r@ == self@,
    {
        TypstFont {
            family_name: self.family_name.clone(),
            style: self.style,
            weight: self.weight,
            stretch: self.stretch,
        }
    }
}

/// The style that a name stands for, without regard to case.
pub open spec fn style_of_name(name: Seq<char>) -> Option<FontStyle> {
    if same_folded(name, "normal"@) {
        Some(FontStyle::Normal)
    } else if same_folded(name, "italic"@) {
        Some(FontStyle::Italic)
    } else if same_folded(name, "oblique"@) {
        Some(FontStyle::Oblique)
    } else {
        None
    }
}

/// Reads a style name; `None` if it names no style.
pub fn parse_style(name: &str) -> (r: Option<FontStyle>)
    ensures
        r == style_of_name(name@),
{
    if eq_ignoring_case(name, "normal") {
        Some(FontStyle::Normal)
    } else if eq_ignoring_case(name, "italic") {
        Some(FontStyle::Italic)
    } else if eq_ignoring_case(name, "oblique") {
        Some(FontStyle::Oblique)
    } else {
        None
    }
}

/// The name under which a style is written.
pub fn style_name(style: FontStyle) -> (r: &'static str)
    ensures
        style_of_name(r@) == Some(style),
        style == FontStyle::Normal ==> r@ == "Normal"@,
        style == FontStyle::Italic ==> r@ == "Italic"@,
        style == FontStyle::Oblique ==> r@ == "Oblique"@,
{
    proof {
        reveal_strlit("Normal");
        reveal_strlit("Italic");
        reveal_strlit("Oblique");
        reveal_strlit("normal");
        reveal_strlit("italic");
        reveal_strlit("oblique");
        assert(fold_char('N') == 'n' && fold_char('I') == 'i' && fold_char('O') == 'o');
        assert(fold_char("Italic"@[0]) != fold_char("normal"@[0]));
    }
    match style {
        FontStyle::Normal => "Normal",
        FontStyle::Italic => "Italic",
        FontStyle::Oblique => "Oblique",
    }
}

/// The name of a style as text.
pub open spec fn style_text(style: FontStyle) -> Seq<char> {
    match style {
        FontStyle::Normal => "Normal"@,
        FontStyle::Italic => "Italic"@,
        FontStyle::Oblique => "Oblique"@,
    }
}

/// The line that describes a font: the family name, filled up to thirty
/// characters, and style, weight and stretch in brackets.
pub open spec fn description_of(k: FontKey) -> Seq<char> {
    padded(k.family, 30) + "    (style: "@ + style_text(k.style) + ", weight: "@ + decimal(
        k.weight as nat,
    ) + ", stretch: "@ + decimal(k.stretch as nat) + ")"@
}

impl TypstFont {
    /// The line that describes this font.
    pub fn describe(&self) -> (r: String)
        ensures
            r@ == description_of(self@),
    {
        let mut line = pad(self.family_name.as_str(), 30);
        line.append("    (style: ");
        line.append(style_name(self.style));
        line.append(", weight: ");
        line.append(decimal_text(self.weight).as_str());
        line.append(", stretch: ");
        line.append(decimal_text(self.stretch).as_str());
        line.append(")");
        line
    }
}

/// The fonts a project requires and where it keeps its font files.
#[derive(Clone, Debug, PartialEq, Eq)]
pub struct FontConfig {
    /// The project's font directory, absolute or relative to the manifest.
    pub font_dir: Option<String>,
    /// The required fonts, in the order of the manifest.
    pub fonts: Vec<TypstFont>,
}

/// The weight field of a manifest entry: one weight, a list of weights, or
/// something that is neither.
#[derive(Clone, Debug, PartialEq, Eq)]
pub enum WeightEntry {
    Single(i64),
    List(Vec<i64>),
    /// Neither an integer nor a list of integers.
    Other,
}

/// One entry of a manifest as written: every field but the family name may
/// be missing, and the weight may be a list.
#[derive(Clone, Debug, PartialEq, Eq)]
pub struct FontRequirement {
    pub family_name: String,
    pub style: Option<String>,
    pub weight: Option<WeightEntry>,
    pub stretch: Option<i64>,
}

/// A manifest as written.
#[derive(Clone, Debug, PartialEq, Eq)]
pub struct FontManifest {
    pub font_dir: Option<String>,
    pub fonts: Vec<FontRequirement>,
}

/// Weights run from 1 to 1000.
pub open spec fn valid_weight(w: int) -> bool {
    1 <= w <= 1000
}

/// A stretch is a number of thousandths that fits sixteen bits.
pub open spec fn valid_stretch(s: int) -> bool {
    0 <= s <= 0xffff
}

impl FontRequirement {
    /// The style asked for: `Normal` where none is written, nothing where
    /// the name written is no style.
    pub open spec fn requested_style(&self) -> Option<FontStyle> {
        match self.style {
            None => Some(FontStyle::Normal),
            Some(name) => style_of_name(name@),
        }
    }

    /// The weights asked for, in the order written: 400 where none is
    /// written.
    pub open spec fn requested_weights(&self) -> Seq<int> {
        match self.weight {
            None => seq![400int],
            Some(WeightEntry::Single(w)) => seq![w as int],
            Some(WeightEntry::List(ws)) => ws@.map_values(|w: i64| w as int),
            Some(WeightEntry::Other) => Seq::empty(),
        }
    }

    /// The stretch asked for: 1000 where none is written.
    pub open spec fn requested_stretch(&self) -> int {
        match self.stretch {
            None => 1000,
            Some(s) => s as int,
        }
    }

    /// Whether the entry follows the schema: the style is the name of a
    /// style, the weight is an integer or a list of integers, and weights
    /// and stretch lie in their ranges.
    pub open spec fn acceptable(&self) -> bool {
        &&& self.requested_style() is Some
        &&& self.weight != Some(WeightEntry::Other)
        &&& valid_stretch(self.requested_stretch())
        &&& forall|i: int|
            0 <= i < self.requested_weights().len() ==> valid_weight(
                #[trigger] self.requested_weights()[i],
            )
    }

    /// The identities an acceptable entry stands for: one for each weight,
    /// in the order of the weights, alike in everything else.
    pub open spec fn expansion(&self) -> Seq<FontKey> {
        Seq::new(
            self.requested_weights().len(),
            |i: int|
                FontKey {
                    family: self.family_name@,
                    style: self.requested_style()->0,
                    weight: self.requested_weights()[i] as u16,
                    stretch: self.requested_stretch() as u16,
                },
        )
    }

    fn weight_count(&self) -> (n: usize)
        ensures
            n == self.requested_weights().len(),
    {
        match &self.weight {
            None => 1,
            Some(WeightEntry::Single(_)) => 1,
            Some(WeightEntry::List(ws)) => ws.len(),
            Some(WeightEntry::Other) => 0,
        }
    }

    fn weight_at(&self, i: usize) -> (w: i64)
        requires
            i < self.requested_weights().len(),
        ensures
            w == self.requested_weights()[i as int],
    {
        match &self.weight {
            None => 400,
            Some(WeightEntry::Single(w)) => *w,
            Some(WeightEntry::List(ws)) => ws[i],
            Some(WeightEntry::Other) => 400,
        }
    }

    /// Expands the entry into its identities, or rejects it.
    pub fn expand(&self) -> (r: Result<Vec<TypstFont>, FontError>)
        ensures
            r is Ok <==> self.acceptable(),
            r is Ok ==> keys_of(r->Ok_0@) == self.expansion(),
            r is Err ==> r->Err_0 == FontError::ConfigParseError,
    {
        let style = match &self.style {
            None => FontStyle::Normal,
            Some(name) => match parse_style(name.as_str()) {
                Some(style) => style,
                None => {
                    return Err(FontError::ConfigParseError);
                },
            },
        };
        let stretch: u16 = match self.stretch {
            None => 1000,
            Some(s) => {
                if s < 0 || s > 0xffff {
                    return Err(FontError::ConfigParseError);
                }
                s as u16
            },
        };
        match &self.weight {
            Some(WeightEntry::Other) => {
                return Err(FontError::ConfigParseError);
            },
            _ => {},
        }
        let n = self.weight_count();
        let mut fonts: Vec<TypstFont> = Vec::new();
        let mut i: usize = 0;
        while i < n
            invariant
                i <= n,
                n == self.requested_weights().len(),
                self.requested_style() == Some(style),
                valid_stretch(self.requested_stretch()),
                stretch == self.requested_stretch(),
                fonts@.len() == i,
                forall|j: int| 0 <= j < i ==> valid_weight(#[trigger] self.requested_weights()[j]),
                forall|j: int| 0 <= j < i ==> (#[trigger] fonts@[j])@ == self.expansion()[j],
            decreases n - i,
        {
            let w = self.weight_at(i);
            if w < 1 || w > 1000 {
                return Err(FontError::ConfigParseError);
            }
            fonts.push(
                TypstFont {
                    family_name: self.family_name.clone(),
                    style,
                    weight: w as u16,
                    stretch,
                },
            );
            i = i + 1;
        }
        assert(keys_of(fonts@) =~= self.expansion());
        Ok(fonts)
    }
}

/// The identities that a list of acceptable entries stands for: those of
/// the first entry, then those of the second, and so on.
pub open spec fn expansion_of_all(entries: Seq<FontRequirement>) -> Seq<FontKey>
    decreases entries.len(),
{
    if entries.len() == 0 {
        Seq::empty()
    } else {
        expansion_of_all(entries.drop_last()) + entries.last().expansion()
    }
}

/// Whether every entry follows the schema.
pub open spec fn all_acceptable(entries: Seq<FontRequirement>) -> bool {
    forall|i: int| 0 <= i < entries.len() ==> (#[trigger] entries[i]).acceptable()
}

/// Turns a manifest as written into the project's font configuration:
/// defaults are filled in and each list of weights becomes one identity per
/// weight. The manifest is rejected if any entry does not follow the schema.
pub fn expand_font_config(manifest: &FontManifest) -> (r: Result<FontConfig, FontError>)
    ensures
        r is Ok <==> all_acceptable(manifest.fonts@),
        r is Ok ==> r->Ok_0.font_dir == manifest.font_dir && keys_of(r->Ok_0.fonts@)
            == expansion_of_all(manifest.fonts@),
        r is Err ==> r->Err_0 == FontError::ConfigParseError,
{
    let mut fonts: Vec<TypstFont> = Vec::new();
    let n = manifest.fonts.len();
    let mut i: usize = 0;
    while i < n
        invariant
            i <= n,
            n == manifest.fonts@.len(),
            all_acceptable(manifest.fonts@.take(i as int)),
            keys_of(fonts@) == expansion_of_all(manifest.fonts@.take(i as int)),
        decreases n - i,
    {
        let mut more = match manifest.fonts[i].expand() {
            Ok(more) => more,
            Err(e) => {
                return Err(e);
            },
        };
        proof {
            let before = manifest.fonts@.take(i as int);
            let after = manifest.fonts@.take(i + 1);
            assert(after.drop_last() =~= before);
            assert(after.last() == manifest.fonts@[i as int]);
            assert(keys_of(fonts@ + more@) =~= keys_of(fonts@) + keys_of(more@));
            assert forall|j: int| 0 <= j < after.len() implies (#[trigger] after[j]).acceptable() by {
                if j < i {
                    assert(before[j].acceptable());
                }
            }
        }
        fonts.append(&mut more);
        i = i + 1;
    }
    proof {
        assert(manifest.fonts@.take(n as int) =~= manifest.fonts@);
    }
    let font_dir = match &manifest.font_dir {
        None => None,
        Some(dir) => Some(dir.clone()),
    };
    Ok(FontConfig { font_dir, fonts })
}

/// Whether every font of a list has its weight in the range of weights.
pub open spec fn all_well_formed(fonts: Seq<TypstFont>) -> bool {
    forall|i: int| 0 <= i < fonts.len() ==> (#[trigger] fonts[i]).well_formed()
}

/// The manifest entry that stands for one font: every field written out,
/// the weight as a single number.
pub fn requirement_of(font: &TypstFont) -> (r: FontRequirement)
    ensures
        r.family_name@ == font.family_name@,
        r.requested_style() == Some(font.style),
        r.weight == Some(WeightEntry::Single(font.weight as i64)),
        r.stretch == Some(font.stretch as i64),
        font.well_formed() <==> r.acceptable(),
        font.well_formed() ==> r.expansion() == seq![font@],
{
    let r = FontRequirement {
        family_name: font.family_name.clone(),
        style: Some(String::from_str(style_name(font.style))),
        weight: Some(WeightEntry::Single(font.weight as i64)),
        stretch: Some(font.stretch as i64),
    };
    proof {
        assert(r.requested_weights() =~= seq![font.weight as int]);
        if font.well_formed() {
            assert(r.requested_weights()[0] == font.weight as int);
            assert(r.expansion() =~= seq![font@]);
        } else {
            assert(!valid_weight(r.requested_weights()[0]));
        }
    }
    r
}

/// The manifest that stands for a font configuration, entry for entry.
/// Expanding it gives the configuration back.
pub fn written_manifest(config: &FontConfig) -> (m: FontManifest)
    ensures
        m.font_dir == config.font_dir,
        m.fonts@.len() == config.fonts@.len(),
        forall|i: int|
            0 <= i < m.fonts@.len() ==> {
                &&& (#[trigger] m.fonts@[i]).family_name@ == config.fonts@[i].family_name@
                &&& m.fonts@[i].requested_style() == Some(config.fonts@[i].style)
                &&& m.fonts@[i].weight == Some(WeightEntry::Single(config.fonts@[i].weight as i64))
                &&& m.fonts@[i].stretch == Some(config.fonts@[i].stretch as i64)
            },
        all_well_formed(config.fonts@) <==> all_acceptable(m.fonts@),
        all_well_formed(config.fonts@) ==> expansion_of_all(m.fonts@) == keys_of(config.fonts@),
{
    let mut entries: Vec<FontRequirement> = Vec::new();
    let n = config.fonts.len();
    let mut i: usize = 0;
    while i < n
        invariant
            i <= n,
            n == config.fonts@.len(),
            entries@.len() == i,
            forall|j: int|
                0 <= j < i ==> {
                    &&& (#[trigger] entries@[j]).family_name@ == config.fonts@[j].family_name@
                    &&& entries@[j].requested_style() == Some(config.fonts@[j].style)
                    &&& entries@[j].weight == Some(
                        WeightEntry::Single(config.fonts@[j].weight as i64),
                    )
                    &&& entries@[j].stretch == Some(config.fonts@[j].stretch as i64)
                    &&& config.fonts@[j].well_formed() <==> entries@[j].acceptable()
                },
            all_well_formed(config.fonts@.take(i as int)) ==> expansion_of_all(entries@) == keys_of(
                config.fonts@.take(i as int),
            ),
        decreases n - i,
    {
        let entry = requirement_of(&config.fonts[i]);
        proof {
            let before = config.fonts@.take(i as int);
            let after = config.fonts@.take(i + 1);
            assert(entries@.push(entry).drop_last() =~= entries@);
            assert(keys_of(after) =~= keys_of(before).push(config.fonts@[i as int]@));
            if all_well_formed(after) {
                assert(after[i as int].well_formed());
                assert forall|j: int| 0 <= j < before.len() implies (
                #[trigger] before[j]).well_formed() by {
                    assert(after[j].well_formed());
                }
                assert(keys_of(before).push(config.fonts@[i as int]@) =~= keys_of(before) + seq![
                    config.fonts@[i as int]@,
                ]);
            }
        }
        entries.push(entry);
        i = i + 1;
    }
    proof {
        assert(config.fonts@.take(n as int) =~= config.fonts@);
        if all_well_formed(config.fonts@) {
            assert forall|j: int| 0 <= j < entries@.len() implies (
            #[trigger] entries@[j]).acceptable() by {
                assert(config.fonts@[j].well_formed());
            }
        }
        if all_acceptable(entries@) {
            assert forall|j: int| 0 <= j < config.fonts@.len() implies (
            #[trigger] config.fonts@[j]).well_formed() by {
                assert(entries@[j].acceptable());
            }
        }
    }
    let font_dir = match &config.font_dir {
        None => None,
        Some(dir) => Some(dir.clone()),
    };
    FontManifest { font_dir, fonts: entries }
}

/// An entry with `n` weights stands for exactly `n` identities, which differ
/// only in weight; the weight of each is the one written at its place. So a
/// list of two weights gives two identities and a bare weight gives one.
pub proof fn lemma_expansion_per_weight(entry: FontRequirement)
    requires
        entry.acceptable(),
    ensures
        entry.expansion().len() == entry.requested_weights().len(),
        entry.weight is Some && entry.weight->0 is Single ==> entry.expansion().len() == 1,
        entry.weight is Some && entry.weight->0 is List ==> entry.expansion().len()
            == entry.weight->0->List_0@.len(),
        forall|i: int|
            0 <= i < entry.expansion().len() ==> (#[trigger] entry.expansion()[i]).weight
                == entry.requested_weights()[i] && valid_weight(entry.expansion()[i].weight as int),
        forall|i: int, j: int|
            0 <= i < entry.expansion().len() && 0 <= j < entry.expansion().len() ==> {
                &&& (#[trigger] entry.expansion()[i]).family == (#[trigger] entry.expansion()[
                    j
                ]).family
                &&& entry.expansion()[i].style == entry.expansion()[j].style
                &&& entry.expansion()[i].stretch == entry.expansion()[j].stretch
            },
        forall|i: int, j: int|
            0 <= i < entry.expansion().len() && 0 <= j < entry.expansion().len()
                && entry.requested_weights()[i] != entry.requested_weights()[j]
                ==> #[trigger] entry.expansion()[i] != #[trigger] entry.expansion()[j],
{
}

} // verus!
