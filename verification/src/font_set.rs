//! Sets of font identities, kept in the order of identities.

use crate::parse_font_config::{
    key_lt, keys_of, lemma_key_lt_asymmetric, lemma_key_lt_irreflexive, lemma_key_lt_transitive,
    FontKey, TypstFont,
};
use crate::text::Rank;
use vstd::prelude::*;

verus! {

/// Each identity of the list sorts before every later one.
pub open spec fn ascending(keys: Seq<FontKey>) -> bool {
    forall|i: int, j: int| 0 <= i < j < keys.len() ==> key_lt(keys[i], keys[j])
}

/// An ascending list holds no identity twice.
pub proof fn lemma_ascending_distinct(keys: Seq<FontKey>, i: int, j: int)
    requires
        ascending(keys),
        0 <= i < keys.len(),
        0 <= j < keys.len(),
        keys[i] == keys[j],
    ensures
        i == j,
{
    lemma_key_lt_irreflexive(keys[i]);
}

/// An identity that sorts after everything before place `i` and before
/// what stands at place `i` is not in the list.
pub proof fn lemma_absent(keys: Seq<FontKey>, i: int, k: FontKey)
    requires
        ascending(keys),
        0 <= i <= keys.len(),
        forall|j: int| 0 <= j < i ==> key_lt(keys[j], k),
        i == keys.len() || key_lt(k, keys[i]),
    ensures
        !keys.contains(k),
{
    if keys.contains(k) {
        let j = choose|j: int| 0 <= j < keys.len() && keys[j] == k;
        lemma_key_lt_irreflexive(k);
        if j > i {
            lemma_key_lt_transitive(k, keys[i], keys[j]);
        }
    }
}

/// Putting such an identity at place `i` keeps the list ascending.
pub proof fn lemma_insert_keeps_ascending(keys: Seq<FontKey>, i: int, k: FontKey)
    requires
        ascending(keys),
        0 <= i <= keys.len(),
        forall|j: int| 0 <= j < i ==> key_lt(keys[j], k),
        i == keys.len() || key_lt(k, keys[i]),
    ensures
        ascending(keys.insert(i, k)),
{
    let grown = keys.insert(i, k);
    keys.insert_ensures(i, k);
    assert forall|a: int, b: int| 0 <= a < b < grown.len() implies key_lt(grown[a], grown[b]) by {
        if b < i {
        } else if b == i {
        } else if a < i {
            assert(grown[b] == keys[b - 1]);
        } else if a == i {
            assert(grown[b] == keys[b - 1]);
            if b - 1 > i {
                lemma_key_lt_transitive(k, keys[i], keys[b - 1]);
            }
        } else {
            assert(grown[a] == keys[a - 1]);
            assert(grown[b] == keys[b - 1]);
        }
    }
}

/// The list with one identity put in holds what it held and that identity.
pub proof fn lemma_insert_contains(keys: Seq<FontKey>, i: int, k: FontKey, x: FontKey)
    requires
        0 <= i <= keys.len(),
    ensures
        keys.insert(i, k).contains(x) <==> (x == k || keys.contains(x)),
{
    let grown = keys.insert(i, k);
    keys.insert_ensures(i, k);
    if grown.contains(x) {
        let j = choose|j: int| 0 <= j < grown.len() && grown[j] == x;
        if j < i {
            assert(keys[j] == x);
        } else if j > i {
            assert(keys[j - 1] == x);
        }
    }
    if keys.contains(x) {
        let j = choose|j: int| 0 <= j < keys.len() && keys[j] == x;
        if j < i {
            assert(grown[j] == x);
        } else {
            assert(grown[j + 1] == x);
        }
    }
    if x == k {
        assert(grown[i] == x);
    }
}

/// The first member of an ascending list sorts before every other member.
proof fn lemma_first_is_least(keys: Seq<FontKey>, k: FontKey)
    requires
        ascending(keys),
        keys.len() > 0,
        keys.contains(k),
    ensures
        k == keys[0] || key_lt(keys[0], k),
{
    let j = choose|j: int| 0 <= j < keys.len() && keys[j] == k;
    if j > 0 {
        assert(key_lt(keys[0], keys[j]));
    }
}

/// The order in which a set is handed out is fixed by its members: two
/// ascending lists with the same members are the same list.
pub proof fn lemma_ascending_unique(a: Seq<FontKey>, b: Seq<FontKey>)
    requires
        ascending(a),
        ascending(b),
        a.to_set() == b.to_set(),
    ensures
        a == b,
    decreases a.len(),
{
    if a.len() == 0 {
        if b.len() > 0 {
            assert(b.contains(b[0]));
            assert(b.to_set().contains(b[0]));
            assert(a.to_set().contains(b[0]));
        }
        assert(a =~= b);
    } else if b.len() == 0 {
        assert(a.contains(a[0]));
        assert(a.to_set().contains(a[0]));
        assert(b.to_set().contains(a[0]));
    } else {
        assert(a.contains(a[0]));
        assert(b.contains(b[0]));
        assert(a.to_set().contains(a[0]) && b.to_set().contains(a[0]));
        assert(b.to_set().contains(b[0]) && a.to_set().contains(b[0]));
        lemma_first_is_least(a, b[0]);
        lemma_first_is_least(b, a[0]);
        if a[0] != b[0] {
            lemma_key_lt_asymmetric(a[0], b[0]);
        }
        let ra = a.drop_first();
        let rb = b.drop_first();
        assert forall|x: FontKey| ra.contains(x) <==> rb.contains(x) by {
            if ra.contains(x) {
                let j = choose|j: int| 0 <= j < ra.len() && ra[j] == x;
                assert(a[j + 1] == x);
                assert(key_lt(a[0], a[j + 1]));
                lemma_key_lt_irreflexive(x);
                assert(a.contains(x));
                assert(a.to_set().contains(x));
                assert(b.to_set().contains(x));
                let i = choose|i: int| 0 <= i < b.len() && b[i] == x;
                assert(i > 0);
                assert(rb[i - 1] == x);
            }
            if rb.contains(x) {
                let j = choose|j: int| 0 <= j < rb.len() && rb[j] == x;
                assert(b[j + 1] == x);
                assert(key_lt(b[0], b[j + 1]));
                lemma_key_lt_irreflexive(x);
                assert(b.contains(x));
                assert(b.to_set().contains(x));
                assert(a.to_set().contains(x));
                let i = choose|i: int| 0 <= i < a.len() && a[i] == x;
                assert(i > 0);
                assert(ra[i - 1] == x);
            }
        }
        assert(ra.to_set() =~= rb.to_set());
        assert(ascending(ra)) by {
            assert forall|i: int, j: int| 0 <= i < j < ra.len() implies key_lt(ra[i], ra[j]) by {
                assert(key_lt(a[i + 1], a[j + 1]));
            }
        }
        assert(ascending(rb)) by {
            assert forall|i: int, j: int| 0 <= i < j < rb.len() implies key_lt(rb[i], rb[j]) by {
                assert(key_lt(b[i + 1], b[j + 1]));
            }
        }
        lemma_ascending_unique(ra, rb);
        assert(a =~= seq![a[0]] + ra);
        assert(b =~= seq![b[0]] + rb);
    }
}

/// A set of font identities. It holds no identity twice and hands its
/// members out in the order of identities.
#[derive(Debug, PartialEq, Eq)]
pub struct FontSet {
    fonts: Vec<TypstFont>,
}

impl View for FontSet {
    type V = Set<FontKey>;

    closed spec fn view(&self) -> Set<FontKey> {
        keys_of(self.fonts@).to_set()
    }
}

impl FontSet {
    #[verifier::type_invariant]
    spec fn ordered(self) -> bool {
        ascending(keys_of(self.fonts@))
    }

    /// The members in the order in which they are handed out.
    pub closed spec fn keys(&self) -> Seq<FontKey> {
        keys_of(self.fonts@)
    }

    /// The set holds exactly the identities of its list.
    pub proof fn lemma_view_is_keys(&self)
        ensures
            self@ == self.keys().to_set(),
            self@.finite(),
    {
        vstd::seq_lib::seq_to_set_is_finite(self.keys());
    }

    /// Two sets with the same members hand them out in the same order.
    pub proof fn lemma_same_members_same_order(&self, other: &FontSet)
        requires
            ascending(self.keys()),
            ascending(other.keys()),
            self@ == other@,
        ensures
            self.keys() == other.keys(),
    {
        lemma_ascending_unique(self.keys(), other.keys());
    }

    /// The empty set.
    pub fn new() -> (r: FontSet)
        ensures
            r@ == Set::<FontKey>::empty(),
            r.keys() == Seq::<FontKey>::empty(),
    {
        let r = FontSet { fonts: Vec::new() };
        assert(r@ =~= Set::<FontKey>::empty());
        assert(r.keys() =~= Seq::<FontKey>::empty());
        r
    }

    /// The number of members.
    pub fn len(&self) -> (n: usize)
        ensures
            n == self.keys().len(),
            n == self@.len(),
            ascending(self.keys()),
    {
        proof {
            use_type_invariant(self);
            assert(self.keys().no_duplicates()) by {
                assert forall|i: int, j: int|
                    0 <= i < self.keys().len() && 0 <= j < self.keys().len() && i != j implies self.keys()[i]
                    != self.keys()[j] by {
                    if self.keys()[i] == self.keys()[j] {
                        lemma_ascending_distinct(self.keys(), i, j);
                    }
                }
            }
            self.keys().unique_seq_to_set();
        }
        self.fonts.len()
    }

    /// Whether the set has no member.
    pub fn is_empty(&self) -> (r: bool)
        ensures
            r == (self.keys().len() == 0),
            r == (self@ == Set::<FontKey>::empty()),
    {
        proof {
            if self.keys().len() == 0 {
                assert(self@ =~= Set::<FontKey>::empty());
            } else {
                assert(self.keys().contains(self.keys()[0]));
                assert(self@.contains(self.keys()[0]));
            }
        }
        self.fonts.len() == 0
    }

    /// The member at place `i` of the order.
    pub fn get(&self, i: usize) -> (r: Option<&TypstFont>)
        ensures
            ascending(self.keys()),
            r is Some <==> i < self.keys().len(),
            r is Some ==> r->0@ == self.keys()[i as int] && self@.contains(r->0@),
    {
        proof {
            use_type_invariant(self);
        }
        if i < self.fonts.len() {
            proof {
                assert(self.keys().contains(self.keys()[i as int]));
            }
            Some(&self.fonts[i])
        } else {
            None
        }
    }

    /// The first place whose member does not sort before `font`, and
    /// whether that member is `font`.
    fn locate(&self, font: &TypstFont) -> (r: (usize, bool))
        ensures
            r.0 <= self.keys().len(),
            forall|j: int| 0 <= j < r.0 ==> key_lt(self.keys()[j], font@),
            r.1 ==> r.0 < self.keys().len() && self.keys()[r.0 as int] == font@,
            !r.1 ==> r.0 == self.keys().len() || key_lt(font@, self.keys()[r.0 as int]),
    {
        let n = self.fonts.len();
        let mut i: usize = 0;
        while i < n
            invariant
                i <= n,
                n == self.keys().len(),
                n == self.fonts@.len(),
                forall|j: int| 0 <= j < i ==> key_lt(self.keys()[j], font@),
            decreases n - i,
        {
            match self.fonts[i].rank(font) {
                Rank::Before => {},
                Rank::Same => {
                    return (i, true);
                },
                Rank::After => {
                    return (i, false);
                },
            }
            i = i + 1;
        }
        (n, false)
    }

    /// Whether `font` is a member.
    pub fn contains(&self, font: &TypstFont) -> (r: bool)
        ensures
            r == self@.contains(font@),
    {
        let (i, found) = self.locate(font);
        proof {
            use_type_invariant(self);
            if !found {
                lemma_absent(self.keys(), i as int, font@);
            } else {
                assert(self.keys().contains(self.keys()[i as int]));
            }
        }
        found
    }

    /// Puts `font` into the set; says whether it was new.
    pub fn insert(&mut self, font: TypstFont) -> (added: bool)
        ensures
            final(self)@ == old(self)@.insert(font@),
            added == !old(self)@.contains(font@),
            ascending(final(self).keys()),
            added ==> final(self).keys().len() == old(self).keys().len() + 1,
            !added ==> final(self).keys() == old(self).keys(),
    {
        let (i, found) = self.locate(&font);
        proof {
            use_type_invariant(&*self);
        }
        if found {
            proof {
                assert(self.keys().contains(self.keys()[i as int]));
                assert(self@ =~= self@.insert(font@));
            }
            return false;
        }
        proof {
            lemma_absent(self.keys(), i as int, font@);
            lemma_insert_keeps_ascending(self.keys(), i as int, font@);
            assert forall|x: FontKey|
                self.keys().insert(i as int, font@).contains(x) <==> (x == font@
                    || self.keys().contains(x)) by {
                lemma_insert_contains(self.keys(), i as int, font@, x);
            }
            assert(keys_of(self.fonts@.insert(i as int, font)) =~= self.keys().insert(
                i as int,
                font@,
            ));
        }
        let mut fonts: Vec<TypstFont> = Vec::new();
        std::mem::swap(&mut self.fonts, &mut fonts);
        fonts.insert(i, font);
        self.fonts = fonts;
        proof {
            assert(self@ =~= old(self)@.insert(font@));
        }
        true
    }

    /// The set of the fonts of a list.
    pub fn from_fonts(fonts: &Vec<TypstFont>) -> (r: FontSet)
        ensures
            r@ == keys_of(fonts@).to_set(),
            ascending(r.keys()),
    {
        let mut set = FontSet::new();
        let n = fonts.len();
        let mut i: usize = 0;
        while i < n
            invariant
                i <= n,
                n == fonts@.len(),
                set@ == keys_of(fonts@).take(i as int).to_set(),
                ascending(set.keys()),
            decreases n - i,
        {
            proof {
                let before = keys_of(fonts@).take(i as int);
                let after = keys_of(fonts@).take(i + 1);
                assert(after =~= before.push(fonts@[i as int]@));
                assert(after.to_set() =~= before.to_set().insert(fonts@[i as int]@)) by {
                    assert forall|x: FontKey|
                        after.contains(x) <==> (x == fonts@[i as int]@ || before.contains(x)) by {
                        lemma_insert_contains(before, i as int, fonts@[i as int]@, x);
                        assert(before.insert(i as int, fonts@[i as int]@) =~= after);
                    }
                }
            }
            set.insert(fonts[i].duplicate());
            i = i + 1;
        }
        proof {
            assert(keys_of(fonts@).take(n as int) =~= keys_of(fonts@));
        }
        set
    }

    /// The members, in the order of identities.
    pub fn to_fonts(&self) -> (r: Vec<TypstFont>)
        ensures
            keys_of(r@) == self.keys(),
            ascending(self.keys()),
    {
        proof {
            use_type_invariant(self);
        }
        let mut out: Vec<TypstFont> = Vec::new();
        let n = self.fonts.len();
        let mut i: usize = 0;
        while i < n
            invariant
                i <= n,
                n == self.fonts@.len(),
                keys_of(out@) == self.keys().take(i as int),
            decreases n - i,
        {
            proof {
                assert(self.keys().take(i + 1) =~= self.keys().take(i as int).push(
                    self.fonts@[i as int]@,
                ));
                assert(keys_of(out@.push(self.fonts@[i as int])) =~= keys_of(out@).push(
                    self.fonts@[i as int]@,
                ));
            }
            let copy = self.fonts[i].duplicate();
            proof {
                assert(keys_of(out@.push(copy)) =~= keys_of(out@).push(copy@));
            }
            out.push(copy);
            i = i + 1;
        }
        proof {
            assert(self.keys().take(n as int) =~= self.keys());
        }
        out
    }

    /// A copy of the set.
    pub fn duplicate(&self) -> (r: FontSet)
        ensures
            r@ == self@,
            r.keys() == self.keys(),
    {
        FontSet { fonts: self.to_fonts() }
    }

    /// The members of this set that are not in `other`.
    pub fn difference(&self, other: &FontSet) -> (r: FontSet)
        ensures
            r@ == self@.difference(other@),
            ascending(r.keys()),
    {
        let mut out = FontSet::new();
        let n = self.fonts.len();
        let mut i: usize = 0;
        while i < n
            invariant
                i <= n,
                n == self.fonts@.len(),
                out@ == self.keys().take(i as int).to_set().difference(other@),
                ascending(out.keys()),
            decreases n - i,
        {
            proof {
                let before = self.keys().take(i as int);
                let after = self.keys().take(i + 1);
                let k = self.fonts@[i as int]@;
                assert(before.insert(i as int, k) =~= after);
                assert forall|x: FontKey| after.contains(x) <==> (x == k || before.contains(x)) by {
                    lemma_insert_contains(before, i as int, k, x);
                }
                assert(after.to_set() =~= before.to_set().insert(k));
            }
            if !other.contains(&self.fonts[i]) {
                out.insert(self.fonts[i].duplicate());
            }
            proof {
                assert(out@ =~= self.keys().take(i + 1).to_set().difference(other@));
            }
            i = i + 1;
        }
        proof {
            assert(self.keys().take(n as int) =~= self.keys());
        }
        out
    }
}

} // verus!
