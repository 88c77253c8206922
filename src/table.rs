//! The canonical category → name → markup map of one icon set, and lookups in it.

use vstd::prelude::*;

verus! {

/// The icons of one category: (name, markup) pairs.
pub type NamesRep = Seq<(Seq<char>, Seq<char>)>;

/// A canonical map as stored: (category label, icons) pairs.
pub type MapRep = Seq<(Seq<char>, NamesRep)>;

/// A canonical map as a mathematical map: category → name → markup.
pub type MapView = Map<Seq<char>, Map<Seq<char>, Seq<char>>>;

/// Whether some pair of `s` has key `k`.
pub open spec fn has_key<V>(s: Seq<(Seq<char>, V)>, k: Seq<char>) -> bool {
    exists|i: int| 0 <= i < s.len() && #[trigger] s[i].0 == k
}

/// Whether no two pairs of `s` share a key.
pub open spec fn keys_unique<V>(s: Seq<(Seq<char>, V)>) -> bool {
    forall|i: int, j: int| 0 <= i < j < s.len() ==> s[i].0 != s[j].0
}

/// The map that a sequence of pairs stands for; where a key repeats, its
/// first pair counts.
pub open spec fn to_map<V>(s: Seq<(Seq<char>, V)>) -> Map<Seq<char>, V>
    decreases s.len(),
{
    if s.len() == 0 {
        Map::empty()
    } else {
        let m = to_map(s.drop_last());
        if m.contains_key(s.last().0) {
            m
        } else {
            m.insert(s.last().0, s.last().1)
        }
    }
}

/// The map that a stored canonical map stands for.
pub open spec fn rep_view(r: MapRep) -> MapView {
    to_map(r.map_values(|p: (Seq<char>, NamesRep)| (p.0, to_map(p.1))))
}

/// Markup that starts with the opening-tag token `<svg`, followed by the
/// tag's closing bracket or by a space before further attributes; attributes
/// are spliced in after the token.
pub open spec fn is_markup(s: Seq<char>) -> bool {
    s.len() >= 5 && s.subrange(0, 4) == "<svg"@ && (s[4] == '>' || s[4] == ' ')
}

/// Whether every markup of a stored canonical map is well formed.
pub open spec fn all_markup(r: MapRep) -> bool {
    forall|i: int, j: int|
        0 <= i < r.len() && 0 <= j < r[i].1.len() ==> is_markup(#[trigger] r[i].1[j].1)
}

/// Whether no category of `r` repeats a name.
pub open spec fn names_unique(r: MapRep) -> bool {
    forall|i: int| 0 <= i < r.len() ==> keys_unique(#[trigger] r[i].1)
}

/// A well-formed stored canonical map: no label repeats, no category repeats
/// a name, and every markup is well formed.
pub open spec fn rep_wf(r: MapRep) -> bool {
    keys_unique(r) && names_unique(r) && all_markup(r)
}

/// A key is in the map exactly when some pair carries it.
pub proof fn lemma_to_map_domain<V>(s: Seq<(Seq<char>, V)>, k: Seq<char>)
    ensures
        to_map(s).contains_key(k) <==> has_key(s, k),
    decreases s.len(),
{
    if s.len() > 0 {
        lemma_to_map_domain(s.drop_last(), k);
        if has_key(s.drop_last(), k) {
            let i = choose|i: int| 0 <= i < s.drop_last().len() && #[trigger] s.drop_last()[i].0 == k;
            assert(s[i].0 == k);
        }
        if has_key(s, k) && s.last().0 != k {
            let i = choose|i: int| 0 <= i < s.len() && #[trigger] s[i].0 == k;
            assert(s.drop_last()[i].0 == k);
        }
    }
}

/// The first pair with a key gives that key's value.
pub proof fn lemma_to_map_first<V>(s: Seq<(Seq<char>, V)>, i: int)
    requires
        0 <= i < s.len(),
        forall|j: int| 0 <= j < i ==> s[j].0 != s[i].0,
    ensures
        to_map(s).contains_key(s[i].0),
        to_map(s)[s[i].0] == s[i].1,
    decreases s.len(),
{
    let k = s[i].0;
    lemma_to_map_domain(s, k);
    if i == s.len() - 1 {
        lemma_to_map_domain(s.drop_last(), k);
        if has_key(s.drop_last(), k) {
            let j = choose|j: int| 0 <= j < s.drop_last().len() && #[trigger] s.drop_last()[j].0 == k;
            assert(s[j].0 == k);
        }
    } else {
        lemma_to_map_first(s.drop_last(), i);
        assert(s.drop_last()[i] == s[i]);
    }
}

/// Appending a pair whose key is new adds it to the map.
pub proof fn lemma_to_map_push<V>(s: Seq<(Seq<char>, V)>, k: Seq<char>, v: V)
    requires
        !has_key(s, k),
    ensures
        to_map(s.push((k, v))) == to_map(s).insert(k, v),
        !to_map(s).contains_key(k),
{
    lemma_to_map_domain(s, k);
    assert(s.push((k, v)).drop_last() =~= s);
}

/// Reordering a sequence of pairs keeps its keys unique.
pub proof fn lemma_reordered_keys_unique<V>(s: Seq<(Seq<char>, V)>, t: Seq<(Seq<char>, V)>)
    requires
        s.to_multiset() == t.to_multiset(),
        keys_unique(s),
    ensures
        keys_unique(t),
{
    s.to_multiset_ensures();
    t.to_multiset_ensures();
    assert(s.no_duplicates());
    s.lemma_multiset_has_no_duplicates();
    t.lemma_multiset_has_no_duplicates_conv();
    assert forall|i: int, j: int| 0 <= i < j < t.len() implies t[i].0 != t[j].0 by {
        assert(t.to_multiset().count(t[i]) > 0);
        assert(t.to_multiset().count(t[j]) > 0);
        assert(s.contains(t[i]));
        assert(s.contains(t[j]));
        let a = choose|a: int| 0 <= a < s.len() && s[a] == t[i];
        let b = choose|b: int| 0 <= b < s.len() && s[b] == t[j];
        assert(t[i] != t[j]);
        assert(a != b);
    }
}

/// Two orderings of the same pairs with unique keys stand for the same map.
pub proof fn lemma_reordered_to_map<V>(s: Seq<(Seq<char>, V)>, t: Seq<(Seq<char>, V)>)
    requires
        s.to_multiset() == t.to_multiset(),
        keys_unique(s),
    ensures
        to_map(s) == to_map(t),
{
    lemma_reordered_keys_unique(s, t);
    s.to_multiset_ensures();
    t.to_multiset_ensures();
    assert forall|k: Seq<char>| #[trigger] to_map(s).contains_key(k) == to_map(t).contains_key(k)
        && (to_map(s).contains_key(k) ==> to_map(s)[k] == to_map(t)[k]) by {
        lemma_to_map_domain(s, k);
        lemma_to_map_domain(t, k);
        if has_key(s, k) {
            let i = choose|i: int| 0 <= i < s.len() && #[trigger] s[i].0 == k;
            assert(s.to_multiset().count(s[i]) > 0);
            assert(t.contains(s[i]));
            let j = choose|j: int| 0 <= j < t.len() && t[j] == s[i];
            lemma_to_map_first(s, i);
            lemma_to_map_first(t, j);
        }
        if has_key(t, k) {
            let j = choose|j: int| 0 <= j < t.len() && #[trigger] t[j].0 == k;
            assert(t.to_multiset().count(t[j]) > 0);
            assert(s.contains(t[j]));
            let i = choose|i: int| 0 <= i < s.len() && s[i] == t[j];
            assert(s[i].0 == k);
        }
    }
    assert(to_map(s) =~= to_map(t));
}

/// Finds the first pair of `s` whose key is `k`.
pub(crate) fn find_key<V>(s: &Vec<(String, V)>, k: &String) -> (r: Option<usize>)
    ensures
        match r {
            Some(i) => i < s.len() && s@[i as int].0@ == k@ && forall|j: int|
                0 <= j < i ==> s@[j].0@ != k@,
            None => forall|j: int| 0 <= j < s.len() ==> s@[j].0@ != k@,
        },
{
    let mut i: usize = 0;
    while i < s.len()
        invariant
            i <= s.len(),
            forall|j: int| 0 <= j < i ==> s@[j].0@ != k@,
        decreases s.len() - i,
    {
        if s[i].0 == *k {
            return Some(i);
        }
        i = i + 1;
    }
    None
}

/// Whether no two pairs of `s` share a key.
pub(crate) fn keys_distinct<V>(s: &Vec<(String, V)>) -> (r: bool)
    ensures
        r == forall|i: int, j: int| 0 <= i < j < s.len() ==> s@[i].0@ != s@[j].0@,
{
    let mut j: usize = 0;
    while j < s.len()
        invariant
            j <= s.len(),
            forall|a: int, b: int| 0 <= a < b < j ==> s@[a].0@ != s@[b].0@,
        decreases s.len() - j,
    {
        let mut i: usize = 0;
        while i < j
            invariant
                i <= j < s.len(),
                forall|a: int, b: int| 0 <= a < b < j ==> s@[a].0@ != s@[b].0@,
                forall|a: int| 0 <= a < i ==> s@[a].0@ != s@[j as int].0@,
            decreases j - i,
        {
            if s[i].0 == s[j].0 {
                return false;
            }
            i = i + 1;
        }
        j = j + 1;
    }
    true
}

/// Whether `s` is well-formed markup: `<svg` followed by `>` or a space.
pub fn is_svg_markup(s: &String) -> (r: bool)
    ensures
        r == is_markup(s@),
{
    let t = s.as_str();
    if t.unicode_len() < 5 {
        false
    } else {
        let head = String::from_str(t.substring_char(0, 4));
        let tag = String::from_str("<svg");
        let next = t.get_char(4);
        head == tag && (next == '>' || next == ' ')
    }
}

/// The normalised category → name → markup map of one icon set.
///
/// No category label repeats, no category repeats an icon name, and every
/// markup starts with the `<svg` token followed by `>` or a space.
#[derive(Debug)]
pub struct CanonicalMap {
    categories: Vec<(String, Vec<(String, String)>)>,
}

impl CanonicalMap {
    #[verifier::type_invariant]
    closed spec fn inv(&self) -> bool {
        rep_wf(self.categories.deep_view())
    }

    /// The stored form: category labels with their (name, markup) pairs, in order.
    pub closed spec fn rep(&self) -> MapRep {
        self.categories.deep_view()
    }

    /// The map: category → name → markup.
    pub open spec fn view(&self) -> MapView {
        rep_view(self.rep())
    }

    /// Whether `category` holds an icon `name`.
    pub open spec fn has_icon(&self, category: Seq<char>, name: Seq<char>) -> bool {
        self@.contains_key(category) && self@[category].contains_key(name)
    }

    /// A map from (category label, (name, markup) pairs) in order; `None`
    /// when a label repeats, a category repeats a name, or some markup is not
    /// well formed.
    pub fn from_categories(categories: Vec<(String, Vec<(String, String)>)>) -> (r: Option<Self>)
        ensures
            match r {
                Some(m) => rep_wf(categories.deep_view()) && m.rep() == categories.deep_view(),
                None => !rep_wf(categories.deep_view()),
            },
    {
        let ghost rep = categories.deep_view();
        if !keys_distinct(&categories) {
            proof {
                let (a, b) = choose|a: int, b: int|
                    0 <= a < b < categories.len() && categories@[a].0@ == categories@[b].0@;
                assert(rep[a].0 == categories@[a].0@);
                assert(rep[b].0 == categories@[b].0@);
            }
            return None;
        }
        assert(keys_unique(rep)) by {
            assert forall|a: int, b: int| 0 <= a < b < rep.len() implies rep[a].0 != rep[b].0 by {
                assert(rep[a].0 == categories@[a].0@);
                assert(rep[b].0 == categories@[b].0@);
            }
        }
        let mut i: usize = 0;
        while i < categories.len()
            invariant
                i <= categories.len(),
                rep == categories.deep_view(),
                keys_unique(rep),
                forall|a: int| 0 <= a < i ==> keys_unique(#[trigger] rep[a].1),
                forall|a: int, b: int|
                    0 <= a < i && 0 <= b < rep[a].1.len() ==> is_markup(#[trigger] rep[a].1[b].1),
            decreases categories.len() - i,
        {
            let names = &categories[i].1;
            let ghost ns = rep[i as int].1;
            assert(ns == names.deep_view());
            if !keys_distinct(names) {
                proof {
                    let (a, b) = choose|a: int, b: int|
                        0 <= a < b < names.len() && names@[a].0@ == names@[b].0@;
                    assert(ns[a].0 == names@[a].0@);
                    assert(ns[b].0 == names@[b].0@);
                }
                return None;
            }
            assert(keys_unique(ns)) by {
                assert forall|a: int, b: int| 0 <= a < b < ns.len() implies ns[a].0 != ns[b].0 by {
                    assert(ns[a].0 == names@[a].0@);
                    assert(ns[b].0 == names@[b].0@);
                }
            }
            let mut j: usize = 0;
            while j < names.len()
                invariant
                    i < categories.len(),
                    j <= names.len(),
                    names == categories@[i as int].1,
                    rep == categories.deep_view(),
                    forall|a: int, b: int|
                        0 <= a < i && 0 <= b < rep[a].1.len() ==> is_markup(#[trigger] rep[a].1[b].1),
                    forall|b: int| 0 <= b < j ==> is_markup(#[trigger] rep[i as int].1[b].1),
                decreases names.len() - j,
            {
                assert(rep[i as int].1[j as int].1 == names@[j as int].1@);
                if !is_svg_markup(&names[j].1) {
                    return None;
                }
                j = j + 1;
            }
            i = i + 1;
        }
        Some(CanonicalMap { categories })
    }

    /// The stored form itself; every markup in it is well formed.
    pub(crate) fn stored(&self) -> (r: &Vec<(String, Vec<(String, String)>)>)
        ensures
            r.deep_view() == self.rep(),
            rep_wf(self.rep()),
    {
        proof {
            use_type_invariant(self);
        }
        &self.categories
    }

    /// The markup of icon `name` in `category`; `None` when there is none.
    pub fn lookup(&self, category: &str, name: &str) -> (r: Option<&String>)
        ensures
            match r {
                Some(s) => self.has_icon(category@, name@) && s@ == self@[category@][name@]
                    && is_markup(s@),
                None => !self.has_icon(category@, name@),
            },
    {
        proof {
            use_type_invariant(self);
        }
        let ghost rep = self.rep();
        let ghost outer = rep.map_values(|p: (Seq<char>, NamesRep)| (p.0, to_map(p.1)));
        let c = category.to_owned();
        match find_key(&self.categories, &c) {
            None => {
                proof {
                    lemma_to_map_domain(outer, category@);
                    if has_key(outer, category@) {
                        let i = choose|i: int| 0 <= i < outer.len() && #[trigger] outer[i].0 == category@;
                        assert(self.categories@[i].0@ == rep[i].0);
                    }
                }
                None
            },
            Some(i) => {
                let names = &self.categories[i].1;
                proof {
                    assert forall|j: int| 0 <= j < i implies outer[j].0 != outer[i as int].0 by {
                        assert(self.categories@[j].0@ == rep[j].0);
                    }
                    lemma_to_map_first(outer, i as int);
                    assert(self@[category@] == to_map(rep[i as int].1));
                    assert(rep[i as int].1 == names.deep_view());
                }
                let n = name.to_owned();
                match find_key(names, &n) {
                    None => {
                        proof {
                            let ns = rep[i as int].1;
                            lemma_to_map_domain(ns, name@);
                            if has_key(ns, name@) {
                                let j = choose|j: int| 0 <= j < ns.len() && #[trigger] ns[j].0 == name@;
                                assert(names@[j].0@ == ns[j].0);
                            }
                        }
                        None
                    },
                    Some(j) => {
                        proof {
                            let ns = rep[i as int].1;
                            assert forall|a: int| 0 <= a < j implies ns[a].0 != ns[j as int].0 by {
                                assert(names@[a].0@ == ns[a].0);
                            }
                            lemma_to_map_first(ns, j as int);
                            assert(ns[j as int].1 == names@[j as int].1@);
                        }
                        Some(&names[j].1)
                    },
                }
            },
        }
    }
}

} // verus!
