//! Building canonical maps from the files of an icon set.

use vstd::prelude::*;
use vstd::seq_lib::*;

use crate::table::{
    CanonicalMap, MapRep, MapView, NamesRep, all_markup, find_key, has_key, is_markup, is_svg_markup,
    keys_distinct, keys_unique, lemma_reordered_keys_unique, lemma_reordered_to_map,
    lemma_to_map_domain, lemma_to_map_push, names_unique, rep_view, rep_wf, to_map,
};

verus! {

/// Why the files of an icon set cannot be normalised.
#[derive(Debug, Clone, Copy, PartialEq, Eq)]
pub enum NormalizeError {
    /// Two declared categories have the same label.
    DuplicateCategory,
    /// Two files give the same name in the same category.
    DuplicateName,
    /// A file's markup is not `<svg` followed by `>` or a space.
    NotMarkup,
}

/// A file as its stem (name without extension) and its minified markup.
pub type FileRep = (Seq<char>, Seq<char>);

/// Whether `s` ends with `suffix`.
pub open spec fn ends_with(s: Seq<char>, suffix: Seq<char>) -> bool {
    s.len() >= suffix.len() && s.subrange(s.len() - suffix.len(), s.len() as int) == suffix
}

/// `s` without its last `suffix.len()` characters.
pub open spec fn strip(s: Seq<char>, suffix: Seq<char>) -> Seq<char> {
    s.subrange(0, s.len() - suffix.len())
}

/// Where a file with stem `stem` goes: its category label and icon name, or
/// `None` for a small-size variant that is left out.
pub open spec fn route(stem: Seq<char>) -> Option<(Seq<char>, Seq<char>)> {
    if ends_with(stem, "-16"@) {
        None
    } else if stem == "color-fill"@ {
        Some(("normal"@, stem))
    } else if ends_with(stem, "-fill"@) {
        Some(("fill"@, strip(stem, "-fill"@)))
    } else if ends_with(stem, "-24"@) {
        Some(("normal"@, strip(stem, "-24"@)))
    } else if ends_with(stem, "-outline"@) {
        Some(("outline"@, strip(stem, "-outline"@)))
    } else if ends_with(stem, "-sharp"@) {
        Some(("sharp"@, strip(stem, "-sharp"@)))
    } else {
        Some(("normal"@, stem))
    }
}

/// The categories of a suffix-routed icon set, all empty.
pub open spec fn suffix_categories() -> MapView {
    map![
        "fill"@ => Map::empty(),
        "normal"@ => Map::empty(),
        "outline"@ => Map::empty(),
        "sharp"@ => Map::empty(),
    ]
}

/// Adds icon `n` with markup `m` to category `c`; fails on a name that the
/// category already has.
pub open spec fn place(acc: Option<MapView>, c: Seq<char>, n: Seq<char>, m: Seq<char>) -> Option<
    MapView,
> {
    match acc {
        None => None,
        Some(v) => if v[c].contains_key(n) {
            None
        } else {
            Some(v.insert(c, v[c].insert(n, m)))
        },
    }
}

/// Takes one file into a map under construction.
pub open spec fn suffix_step(acc: Option<MapView>, f: FileRep) -> Option<MapView> {
    match route(f.0) {
        None => acc,
        Some(cn) => place(acc, cn.0, cn.1, f.1),
    }
}

/// [`suffix_step`] as a function value, for folding.
pub open spec fn suffix_stepper() -> spec_fn(Option<MapView>, FileRep) -> Option<MapView> {
    |acc: Option<MapView>, f: FileRep| suffix_step(acc, f)
}

/// The map that suffix routing makes of a list of files; `None` when two
/// files give the same name in the same category.
pub open spec fn suffix_map(files: Seq<FileRep>) -> Option<MapView> {
    files.fold_left(Some(suffix_categories()), suffix_stepper())
}

/// Whether every file that is not left out holds markup.
pub open spec fn routed_markup(files: Seq<FileRep>) -> bool {
    forall|i: int| 0 <= i < files.len() && (#[trigger] route(files[i].0)) is Some ==> is_markup(files[i].1)
}

/// Whether `x` carries none of the suffixes that routing looks at.
pub open spec fn is_bare(x: Seq<char>) -> bool {
    &&& x != "color-fill"@
    &&& !ends_with(x, "-16"@)
    &&& !ends_with(x, "-fill"@)
    &&& !ends_with(x, "-24"@)
    &&& !ends_with(x, "-outline"@)
    &&& !ends_with(x, "-sharp"@)
}

/// Suffix routing: `X-fill` goes to category "fill" as `X` (save for the
/// special name `color-fill`, which stays whole in "normal"); `X-24` goes to
/// "normal" as `X`; `X-16` is left out; a bare `X` goes to "normal" as `X`.
pub proof fn lemma_suffix_routing(x: Seq<char>)
    ensures
        x + "-fill"@ != "color-fill"@ ==> route(x + "-fill"@) == Some(("fill"@, x)),
        route(x + "-24"@) == Some(("normal"@, x)),
        route(x + "-16"@) is None,
        is_bare(x) ==> route(x) == Some(("normal"@, x)),
{
    reveal_strlit("-16");
    reveal_strlit("-fill");
    reveal_strlit("-24");
    reveal_strlit("-outline");
    reveal_strlit("-sharp");
    reveal_strlit("color-fill");
    let n = x.len() as int;
    let f = x + "-fill"@;
    assert(f.subrange(n, n + 5) =~= "-fill"@);
    assert(f.subrange(0, n) =~= x);
    assert(f[n + 4] == 'l');
    assert(f.subrange(n + 2, n + 5)[2] == f[n + 4]);
    let t = x + "-24"@;
    assert(t.subrange(n, n + 3) =~= "-24"@);
    assert(t.subrange(0, n) =~= x);
    assert(t.subrange(n, n + 3)[2] == t[n + 2]);
    if n >= 3 {
        assert(t.subrange(n - 3, n + 3)[5] == t[n + 2]);
    }
    if n >= 5 {
        assert(t.subrange(n - 5, n + 3)[7] == t[n + 2]);
    }
    assert(t[n + 2] == '4');
    let s = x + "-16"@;
    assert(s.subrange(n, n + 3) =~= "-16"@);
}

/// The category buckets of a suffix-routed icon set.
#[derive(Debug, Clone, Copy, PartialEq, Eq)]
pub enum SuffixCategory {
    Fill,
    Normal,
    Outline,
    Sharp,
}

impl SuffixCategory {
    /// The label of the category in the map.
    pub open spec fn label(self) -> Seq<char> {
        match self {
            SuffixCategory::Fill => "fill"@,
            SuffixCategory::Normal => "normal"@,
            SuffixCategory::Outline => "outline"@,
            SuffixCategory::Sharp => "sharp"@,
        }
    }
}

/// `s` without `suffix` when it ends with it.
fn strip_suffix(s: &str, n: usize, suffix: &str) -> (r: Option<String>)
    requires
        n == s@.len(),
    ensures
        match r {
            Some(t) => ends_with(s@, suffix@) && t@ == strip(s@, suffix@),
            None => !ends_with(s@, suffix@),
        },
{
    let k = suffix.unicode_len();
    if k > n {
        return None;
    }
    let tail = String::from_str(s.substring_char(n - k, n));
    let wanted = String::from_str(suffix);
    if tail == wanted {
        Some(String::from_str(s.substring_char(0, n - k)))
    } else {
        None
    }
}

/// The category and icon name of a file with stem `stem`, or `None` when the
/// file is a small-size variant that is left out.
pub fn route_icon(stem: &str) -> (r: Option<(SuffixCategory, String)>)
    ensures
        match r {
            None => route(stem@) is None,
            Some((c, name)) => route(stem@) == Some((c.label(), name@)),
        },
{
    let n = stem.unicode_len();
    if strip_suffix(stem, n, "-16").is_some() {
        return None;
    }
    let whole = String::from_str(stem);
    if whole == String::from_str("color-fill") {
        return Some((SuffixCategory::Normal, whole));
    }
    if let Some(t) = strip_suffix(stem, n, "-fill") {
        return Some((SuffixCategory::Fill, t));
    }
    if let Some(t) = strip_suffix(stem, n, "-24") {
        return Some((SuffixCategory::Normal, t));
    }
    if let Some(t) = strip_suffix(stem, n, "-outline") {
        return Some((SuffixCategory::Outline, t));
    }
    if let Some(t) = strip_suffix(stem, n, "-sharp") {
        return Some((SuffixCategory::Sharp, t));
    }
    Some((SuffixCategory::Normal, whole))
}

/// Taking two files into a map gives the same whichever comes first.
proof fn lemma_suffix_step_commutes()
    ensures
        commutative_foldl(suffix_stepper()),
{
    assert forall|x: FileRep, y: FileRep, v: Option<MapView>|
        #[trigger] suffix_stepper()(suffix_stepper()(v, x), y) == suffix_stepper()(
            suffix_stepper()(v, y),
            x,
        ) by {
        lemma_place_commutes(v, x, y);
    }
}

proof fn lemma_place_commutes(v: Option<MapView>, x: FileRep, y: FileRep)
    ensures
        suffix_step(suffix_step(v, x), y) == suffix_step(suffix_step(v, y), x),
{
    if let (Some(m), Some(cx), Some(cy)) = (v, route(x.0), route(y.0)) {
        let (c1, n1) = cx;
        let (c2, n2) = cy;
        if c1 != c2 {
            if !m[c1].contains_key(n1) && !m[c2].contains_key(n2) {
                assert(m.insert(c1, m[c1].insert(n1, x.1)).insert(c2, m[c2].insert(n2, y.1))
                    =~= m.insert(c2, m[c2].insert(n2, y.1)).insert(c1, m[c1].insert(n1, x.1)));
            }
        } else if n1 != n2 {
            if !m[c1].contains_key(n1) && !m[c1].contains_key(n2) {
                assert(m[c1].insert(n1, x.1).insert(n2, y.1) =~= m[c1].insert(n2, y.1).insert(
                    n1,
                    x.1,
                ));
                assert(m.insert(c1, m[c1].insert(n1, x.1)).insert(
                    c1,
                    m[c1].insert(n1, x.1).insert(n2, y.1),
                ) =~= m.insert(c1, m[c1].insert(n2, y.1)).insert(
                    c1,
                    m[c1].insert(n2, y.1).insert(n1, x.1),
                ));
            }
        }
    }
}

/// Normalising by suffix does not depend on the order in which the files are
/// listed: any reordering of the same files gives the same outcome, the same
/// map or the same failure.
pub proof fn lemma_suffix_order_independent(a: Seq<FileRep>, b: Seq<FileRep>)
    requires
        a.to_multiset() == b.to_multiset(),
    ensures
        suffix_map(a) == suffix_map(b),
        routed_markup(a) == routed_markup(b),
{
    a.to_multiset_ensures();
    b.to_multiset_ensures();
    lemma_suffix_step_commutes();
    lemma_fold_left_permutation(a, b, suffix_stepper(), Some(suffix_categories()));
    assert forall|i: int| 0 <= i < a.len() && routed_markup(b) && (#[trigger] route(a[i].0)) is Some
        implies is_markup(a[i].1) by {
        assert(a.contains(a[i]));
        assert(a.to_multiset().count(a[i]) > 0);
        assert(b.contains(a[i]));
        let j = choose|j: int| 0 <= j < b.len() && b[j] == a[i];
        assert(route(b[j].0) is Some);
    }
    assert forall|i: int| 0 <= i < b.len() && routed_markup(a) && (#[trigger] route(b[i].0)) is Some
        implies is_markup(b[i].1) by {
        assert(b.contains(b[i]));
        assert(b.to_multiset().count(b[i]) > 0);
        assert(a.contains(b[i]));
        let j = choose|j: int| 0 <= j < a.len() && a[j] == b[i];
        assert(route(a[j].0) is Some);
    }
}

/// Every category is present in a suffix-routed map, whatever the files.
pub proof fn lemma_suffix_map_domain(files: Seq<FileRep>)
    ensures
        suffix_map(files) matches Some(v) ==> v.dom() == suffix_categories().dom(),
    decreases files.len(),
{
    if files.len() > 0 {
        lemma_suffix_map_domain(files.drop_last());
        let f = files.last();
        if let (Some(v), Some(cn)) = (suffix_map(files.drop_last()), route(f.0)) {
            assert(suffix_categories().dom().contains(cn.0));
            assert(v.insert(cn.0, v[cn.0].insert(cn.1, f.1)).dom() =~= v.dom());
        }
    }
}

proof fn lemma_suffix_map_prefix(files: Seq<FileRep>, i: int)
    requires
        0 <= i < files.len(),
    ensures
        suffix_map(files.subrange(0, i + 1)) == suffix_step(
            suffix_map(files.subrange(0, i)),
            files[i],
        ),
{
    assert(files.subrange(0, i + 1).drop_last() =~= files.subrange(0, i));
}

proof fn lemma_suffix_map_fails(files: Seq<FileRep>, i: int)
    requires
        0 <= i <= files.len(),
        suffix_map(files.subrange(0, i)) is None,
    ensures
        suffix_map(files) is None,
    decreases files.len() - i,
{
    if i < files.len() {
        lemma_suffix_map_prefix(files, i);
        lemma_suffix_map_fails(files, i + 1);
    } else {
        assert(files.subrange(0, i) =~= files);
    }
}

/// The map of four (label, names) pairs with distinct labels.
proof fn lemma_rep_view_four(r: MapRep)
    requires
        r.len() == 4,
        r[0].0 != r[1].0,
        r[0].0 != r[2].0,
        r[0].0 != r[3].0,
        r[1].0 != r[2].0,
        r[1].0 != r[3].0,
        r[2].0 != r[3].0,
    ensures
        rep_view(r) == map![
            r[0].0 => to_map(r[0].1),
            r[1].0 => to_map(r[1].1),
            r[2].0 => to_map(r[2].1),
            r[3].0 => to_map(r[3].1),
        ],
{
    let s = r.map_values(|p: (Seq<char>, NamesRep)| (p.0, to_map(p.1)));
    let e = Seq::<(Seq<char>, Map<Seq<char>, Seq<char>>)>::empty();
    assert(to_map(e) == Map::<Seq<char>, Map<Seq<char>, Seq<char>>>::empty());
    assert(s =~= e.push(s[0]).push(s[1]).push(s[2]).push(s[3]));
    lemma_to_map_push(e, s[0].0, s[0].1);
    assert(!has_key(e.push(s[0]), s[1].0));
    lemma_to_map_push(e.push(s[0]), s[1].0, s[1].1);
    assert(!has_key(e.push(s[0]).push(s[1]), s[2].0));
    lemma_to_map_push(e.push(s[0]).push(s[1]), s[2].0, s[2].1);
    assert(!has_key(e.push(s[0]).push(s[1]).push(s[2]), s[3].0));
    lemma_to_map_push(e.push(s[0]).push(s[1]).push(s[2]), s[3].0, s[3].1);
}

proof fn lemma_labels_distinct()
    ensures
        "fill"@ != "normal"@,
        "fill"@ != "outline"@,
        "fill"@ != "sharp"@,
        "normal"@ != "outline"@,
        "normal"@ != "sharp"@,
        "outline"@ != "sharp"@,
{
    reveal_strlit("fill");
    reveal_strlit("normal");
    reveal_strlit("outline");
    reveal_strlit("sharp");
    assert("fill"@.len() == 4);
    assert("sharp"@.len() == 5);
    assert("normal"@.len() == 6);
    assert("outline"@.len() == 7);
}

/// Every markup of `b` is well formed.
pub open spec fn bucket_markup(b: NamesRep) -> bool {
    forall|k: int| 0 <= k < b.len() ==> is_markup(#[trigger] b[k].1)
}

/// Adds (name, markup) to `bucket` unless it already has that name.
fn insert_new(bucket: &mut Vec<(String, String)>, name: String, markup: String) -> (added: bool)
    ensures
        added == !has_key(old(bucket).deep_view(), name@),
        added ==> final(bucket).deep_view() == old(bucket).deep_view().push((name@, markup@)),
        added && keys_unique(old(bucket).deep_view()) ==> keys_unique(final(bucket).deep_view()),
        !added ==> *final(bucket) == *old(bucket),
{
    let ghost before = bucket.deep_view();
    match find_key(bucket, &name) {
        Some(j) => {
            assert(before[j as int].0 == bucket@[j as int].0@);
            false
        },
        None => {
            assert forall|j: int| 0 <= j < before.len() implies before[j].0 != name@ by {
                assert(before[j].0 == bucket@[j].0@);
            }
            bucket.push((name, markup));
            assert(bucket.deep_view() =~= before.push((name@, markup@)));
            true
        },
    }
}

/// The suffix-routed map of `files`, given as (stem, minified markup) pairs.
///
/// Each file goes to the category its stem's suffix names, under the stem
/// without that suffix; small-size variants are left out. All four
/// categories are present, empty or not. Fails when a file that is not left
/// out holds no markup, else when two files give the same name in the same
/// category.
pub fn normalize_by_suffix(files: &Vec<(String, String)>) -> (r: Result<CanonicalMap, NormalizeError>)
    ensures
        match r {
            Ok(m) => routed_markup(files.deep_view()) && suffix_map(files.deep_view()) == Some(m@)
                && m@.dom() == suffix_categories().dom(),
            Err(NormalizeError::NotMarkup) => !routed_markup(files.deep_view()),
            Err(NormalizeError::DuplicateName) => routed_markup(files.deep_view()) && suffix_map(
                files.deep_view(),
            ) is None,
            Err(NormalizeError::DuplicateCategory) => false,
        },
{
    let ghost fs = files.deep_view();
    let mut i: usize = 0;
    while i < files.len()
        invariant
            i <= files.len(),
            fs == files.deep_view(),
            forall|j: int| 0 <= j < i && (#[trigger] route(fs[j].0)) is Some ==> is_markup(fs[j].1),
        decreases files.len() - i,
    {
        assert(fs[i as int] == (files@[i as int].0@, files@[i as int].1@));
        if route_icon(files[i].0.as_str()).is_some() {
            assert(route(fs[i as int].0) is Some);
            if !is_svg_markup(&files[i].1) {
                return Err(NormalizeError::NotMarkup);
            }
        }
        i = i + 1;
    }
    proof {
        lemma_labels_distinct();
    }
    let mut fill: Vec<(String, String)> = Vec::new();
    let mut normal: Vec<(String, String)> = Vec::new();
    let mut outline: Vec<(String, String)> = Vec::new();
    let mut sharp: Vec<(String, String)> = Vec::new();
    assert(fill.deep_view() =~= Seq::<(Seq<char>, Seq<char>)>::empty());
    assert(normal.deep_view() =~= Seq::<(Seq<char>, Seq<char>)>::empty());
    assert(outline.deep_view() =~= Seq::<(Seq<char>, Seq<char>)>::empty());
    assert(sharp.deep_view() =~= Seq::<(Seq<char>, Seq<char>)>::empty());
    assert(suffix_map(fs.subrange(0, 0)) == Some(suffix_categories()));
    assert(suffix_categories() =~= map![
        "fill"@ => to_map(fill.deep_view()),
        "normal"@ => to_map(normal.deep_view()),
        "outline"@ => to_map(outline.deep_view()),
        "sharp"@ => to_map(sharp.deep_view()),
    ]);
    let mut i: usize = 0;
    while i < files.len()
        invariant
            i <= files.len(),
            fs == files.deep_view(),
            routed_markup(fs),
            suffix_map(fs.subrange(0, i as int)) == Some(
                map![
                    "fill"@ => to_map(fill.deep_view()),
                    "normal"@ => to_map(normal.deep_view()),
                    "outline"@ => to_map(outline.deep_view()),
                    "sharp"@ => to_map(sharp.deep_view()),
                ],
            ),
            bucket_markup(fill.deep_view()),
            keys_unique(fill.deep_view()),
            bucket_markup(normal.deep_view()),
            keys_unique(normal.deep_view()),
            bucket_markup(outline.deep_view()),
            keys_unique(outline.deep_view()),
            bucket_markup(sharp.deep_view()),
            keys_unique(sharp.deep_view()),
        decreases files.len() - i,
    {
        proof {
            lemma_labels_distinct();
        }
        let ghost v = suffix_map(fs.subrange(0, i as int))->Some_0;
        let ghost f = fs[i as int];
        assert(f == (files@[i as int].0@, files@[i as int].1@));
        proof {
            lemma_suffix_map_prefix(fs, i as int);
        }
        match route_icon(files[i].0.as_str()) {
            None => {},
            Some((c, name)) => {
                let ghost n = name@;
                let markup = files[i].1.clone();
                assert(is_markup(markup@));
                let added = match c {
                    SuffixCategory::Fill => {
                        proof { lemma_to_map_domain(fill.deep_view(), n); }
                        let ghost b = fill.deep_view();
                        let added = insert_new(&mut fill, name, markup);
                        proof { if added { lemma_to_map_push(b, n, f.1); } }
                        added
                    },
                    SuffixCategory::Normal => {
                        proof { lemma_to_map_domain(normal.deep_view(), n); }
                        let ghost b = normal.deep_view();
                        let added = insert_new(&mut normal, name, markup);
                        proof { if added { lemma_to_map_push(b, n, f.1); } }
                        added
                    },
                    SuffixCategory::Outline => {
                        proof { lemma_to_map_domain(outline.deep_view(), n); }
                        let ghost b = outline.deep_view();
                        let added = insert_new(&mut outline, name, markup);
                        proof { if added { lemma_to_map_push(b, n, f.1); } }
                        added
                    },
                    SuffixCategory::Sharp => {
                        proof { lemma_to_map_domain(sharp.deep_view(), n); }
                        let ghost b = sharp.deep_view();
                        let added = insert_new(&mut sharp, name, markup);
                        proof { if added { lemma_to_map_push(b, n, f.1); } }
                        added
                    },
                };
                if !added {
                    proof {
                        lemma_suffix_map_fails(fs, i + 1);
                    }
                    return Err(NormalizeError::DuplicateName);
                }
                assert(suffix_map(fs.subrange(0, i + 1)) == Some(
                    map![
                        "fill"@ => to_map(fill.deep_view()),
                        "normal"@ => to_map(normal.deep_view()),
                        "outline"@ => to_map(outline.deep_view()),
                        "sharp"@ => to_map(sharp.deep_view()),
                    ],
                )) by {
                    assert(v.insert(c.label(), v[c.label()].insert(n, f.1)) =~= map![
                        "fill"@ => to_map(fill.deep_view()),
                        "normal"@ => to_map(normal.deep_view()),
                        "outline"@ => to_map(outline.deep_view()),
                        "sharp"@ => to_map(sharp.deep_view()),
                    ]);
                }
            },
        }
        i = i + 1;
    }
    assert(fs.subrange(0, files.len() as int) =~= fs);
    proof {
        lemma_labels_distinct();
    }
    let ghost view = map![
        "fill"@ => to_map(fill.deep_view()),
        "normal"@ => to_map(normal.deep_view()),
        "outline"@ => to_map(outline.deep_view()),
        "sharp"@ => to_map(sharp.deep_view()),
    ];
    let mut cats: Vec<(String, Vec<(String, String)>)> = Vec::new();
    cats.push((String::from_str("fill"), fill));
    cats.push((String::from_str("normal"), normal));
    cats.push((String::from_str("outline"), outline));
    cats.push((String::from_str("sharp"), sharp));
    let ghost rep = cats.deep_view();
    assert(rep[0].1 == cats@[0].1.deep_view());
    assert(rep[1].1 == cats@[1].1.deep_view());
    assert(rep[2].1 == cats@[2].1.deep_view());
    assert(rep[3].1 == cats@[3].1.deep_view());
    proof {
        lemma_rep_view_four(rep);
    }
    assert(rep_view(rep) =~= view);
    proof {
        lemma_suffix_map_domain(fs);
    }
    match CanonicalMap::from_categories(cats) {
        Some(m) => Ok(m),
        None => {
            assert(rep_wf(rep));
            Err(NormalizeError::NotMarkup)
        },
    }
}

/// The stored form of a directory-partitioned icon set: each declared
/// category with its own files followed by the shared ones.
pub open spec fn merged(declared: Seq<(Seq<char>, NamesRep)>, shared: NamesRep) -> MapRep {
    declared.map_values(|d: (Seq<char>, NamesRep)| (d.0, d.1 + shared))
}

/// Appends the pairs of `src` to `names` as long as their names are new.
fn append_new(names: &mut Vec<(String, String)>, src: &Vec<(String, String)>) -> (ok: bool)
    requires
        keys_unique(old(names).deep_view()),
    ensures
        ok == keys_unique(old(names).deep_view() + src.deep_view()),
        ok ==> final(names).deep_view() == old(names).deep_view() + src.deep_view(),
{
    let ghost start = old(names).deep_view();
    let ghost sv = src.deep_view();
    let mut k: usize = 0;
    while k < src.len()
        invariant
            k <= src.len(),
            start == old(names).deep_view(),
            sv == src.deep_view(),
            names.deep_view() == start + sv.subrange(0, k as int),
            keys_unique(names.deep_view()),
        decreases src.len() - k,
    {
        let ghost before = names.deep_view();
        assert(sv[k as int] == (src@[k as int].0@, src@[k as int].1@));
        let added = insert_new(names, src[k].0.clone(), src[k].1.clone());
        if !added {
            proof {
                let j = choose|j: int| 0 <= j < before.len() && #[trigger] before[j].0 == sv[k as int].0;
                let whole = start + sv;
                if j < start.len() {
                    assert(whole[j] == start[j]);
                    assert(before[j] == start[j]);
                } else {
                    assert(whole[j] == sv[j - start.len()]);
                    assert(before[j] == sv.subrange(0, k as int)[j - start.len()]);
                }
                assert(whole[start.len() + k] == sv[k as int]);
                assert(whole[j].0 == whole[start.len() + k].0);
            }
            return false;
        }
        assert(sv.subrange(0, k + 1) =~= sv.subrange(0, k as int).push(sv[k as int]));
        assert(names.deep_view() =~= start + sv.subrange(0, k + 1));
        k = k + 1;
    }
    assert(sv.subrange(0, k as int) =~= sv);
    true
}

/// The map of an icon set whose categories are directories, given as
/// (category label, (stem, minified markup) files) pairs, with `shared`
/// files added to every category.
///
/// Fails when a label repeats; else when a category would hold a name twice;
/// else when some markup is not `<svg` followed by `>` or a space.
pub fn normalize_by_directory(
    declared: &Vec<(String, Vec<(String, String)>)>,
    shared: &Vec<(String, String)>,
) -> (r: Result<CanonicalMap, NormalizeError>)
    ensures
        ({
            let rep = merged(declared.deep_view(), shared.deep_view());
            match r {
                Ok(m) => keys_unique(rep) && names_unique(rep) && all_markup(rep) && m.rep() == rep
                    && m@ == rep_view(rep),
                Err(NormalizeError::DuplicateCategory) => !keys_unique(rep),
                Err(NormalizeError::DuplicateName) => keys_unique(rep) && !names_unique(rep),
                Err(NormalizeError::NotMarkup) => keys_unique(rep) && names_unique(rep) && !all_markup(
                    rep,
                ),
            }
        }),
{
    let ghost dv = declared.deep_view();
    let ghost sv = shared.deep_view();
    let ghost rep = merged(dv, sv);
    if !keys_distinct(declared) {
        proof {
            let (i, j) = choose|i: int, j: int|
                0 <= i < j < declared.len() && declared@[i].0@ == declared@[j].0@;
            assert(rep[i].0 == declared@[i].0@);
            assert(rep[j].0 == declared@[j].0@);
        }
        return Err(NormalizeError::DuplicateCategory);
    }
    assert(keys_unique(rep)) by {
        assert forall|i: int, j: int| 0 <= i < j < rep.len() implies rep[i].0 != rep[j].0 by {
            assert(rep[i].0 == declared@[i].0@);
            assert(rep[j].0 == declared@[j].0@);
        }
    }
    let mut cats: Vec<(String, Vec<(String, String)>)> = Vec::new();
    let mut i: usize = 0;
    while i < declared.len()
        invariant
            i <= declared.len(),
            dv == declared.deep_view(),
            sv == shared.deep_view(),
            rep == merged(dv, sv),
            keys_unique(rep),
            cats.deep_view() == rep.subrange(0, i as int),
            forall|a: int| 0 <= a < i ==> keys_unique(#[trigger] rep[a].1),
        decreases declared.len() - i,
    {
        let own = &declared[i].1;
        assert(dv[i as int].1 == own.deep_view());
        let mut names: Vec<(String, String)> = Vec::new();
        assert(names.deep_view() =~= Seq::<(Seq<char>, Seq<char>)>::empty());
        let ok_own = append_new(&mut names, own);
        assert(Seq::<(Seq<char>, Seq<char>)>::empty() + own.deep_view() =~= own.deep_view());
        if !ok_own {
            proof {
                let ov = own.deep_view();
                let whole = ov + sv;
                let (a, b) = choose|a: int, b: int| 0 <= a < b < ov.len() && ov[a].0 == ov[b].0;
                assert(whole[a] == ov[a]);
                assert(whole[b] == ov[b]);
                assert(rep[i as int].1 == whole);
            }
            return Err(NormalizeError::DuplicateName);
        }
        let ok_shared = append_new(&mut names, shared);
        if !ok_shared {
            assert(rep[i as int].1 == own.deep_view() + sv);
            return Err(NormalizeError::DuplicateName);
        }
        let ghost before = cats.deep_view();
        cats.push((declared[i].0.clone(), names));
        assert(cats.deep_view() =~= before.push(rep[i as int]));
        assert(rep.subrange(0, i + 1) =~= rep.subrange(0, i as int).push(rep[i as int]));
        i = i + 1;
    }
    assert(rep.subrange(0, declared.len() as int) =~= rep);
    match CanonicalMap::from_categories(cats) {
        Some(m) => Ok(m),
        None => Err(NormalizeError::NotMarkup),
    }
}

/// Normalising by directory does not depend on the order in which each
/// directory's files are listed: reordering them gives the same outcome, the
/// same map or the same failure.
pub proof fn lemma_directory_order_independent(
    d1: Seq<(Seq<char>, NamesRep)>,
    d2: Seq<(Seq<char>, NamesRep)>,
    s1: NamesRep,
    s2: NamesRep,
)
    requires
        d1.len() == d2.len(),
        forall|i: int|
            0 <= i < d1.len() ==> #[trigger] d1[i].0 == d2[i].0 && d1[i].1.to_multiset()
                == d2[i].1.to_multiset(),
        s1.to_multiset() == s2.to_multiset(),
    ensures
        keys_unique(merged(d1, s1)) == keys_unique(merged(d2, s2)),
        names_unique(merged(d1, s1)) == names_unique(merged(d2, s2)),
        all_markup(merged(d1, s1)) == all_markup(merged(d2, s2)),
        names_unique(merged(d1, s1)) ==> rep_view(merged(d1, s1)) == rep_view(merged(d2, s2)),
{
    let r1 = merged(d1, s1);
    let r2 = merged(d2, s2);
    assert forall|i: int| 0 <= i < r1.len() implies #[trigger] r1[i].0 == r2[i].0
        && r1[i].1.to_multiset() == r2[i].1.to_multiset() by {
        assert(d1[i].0 == d2[i].0);
        lemma_multiset_commutative(d1[i].1, s1);
        lemma_multiset_commutative(d2[i].1, s2);
    }
    assert forall|i: int| 0 <= i < r1.len() implies keys_unique(#[trigger] r1[i].1) == keys_unique(
        r2[i].1,
    ) by {
        assert(r1[i].0 == r2[i].0);
        if keys_unique(r1[i].1) {
            lemma_reordered_keys_unique(r1[i].1, r2[i].1);
        }
        if keys_unique(r2[i].1) {
            lemma_reordered_keys_unique(r2[i].1, r1[i].1);
        }
    }
    assert(keys_unique(r1) == keys_unique(r2)) by {
        assert forall|i: int| 0 <= i < r1.len() implies r1[i].0 == r2[i].0 by {}
    }
    assert(names_unique(r1) == names_unique(r2)) by {
        if names_unique(r1) {
            assert forall|i: int| 0 <= i < r2.len() implies keys_unique(#[trigger] r2[i].1) by {
                assert(keys_unique(r1[i].1));
            }
        }
        if names_unique(r2) {
            assert forall|i: int| 0 <= i < r1.len() implies keys_unique(#[trigger] r1[i].1) by {
                assert(keys_unique(r2[i].1));
            }
        }
    }
    assert(all_markup(r1) == all_markup(r2)) by {
        if all_markup(r1) {
            assert forall|i: int, j: int| 0 <= i < r2.len() && 0 <= j < r2[i].1.len() implies is_markup(
                #[trigger] r2[i].1[j].1,
            ) by {
                let (a, b) = (r1[i].1, r2[i].1);
                assert(r1[i].0 == r2[i].0);
                assert(a.to_multiset() == b.to_multiset());
                a.to_multiset_ensures();
                b.to_multiset_ensures();
                assert(b.to_multiset().count(b[j]) > 0);
                assert(a.contains(b[j]));
                let k = choose|k: int| 0 <= k < a.len() && a[k] == b[j];
                assert(is_markup(r1[i].1[k].1));
            }
        }
        if all_markup(r2) {
            assert forall|i: int, j: int| 0 <= i < r1.len() && 0 <= j < r1[i].1.len() implies is_markup(
                #[trigger] r1[i].1[j].1,
            ) by {
                let (a, b) = (r1[i].1, r2[i].1);
                assert(r1[i].0 == r2[i].0);
                assert(a.to_multiset() == b.to_multiset());
                a.to_multiset_ensures();
                b.to_multiset_ensures();
                assert(a.to_multiset().count(a[j]) > 0);
                assert(b.contains(a[j]));
                let k = choose|k: int| 0 <= k < b.len() && b[k] == a[j];
                assert(is_markup(r2[i].1[k].1));
            }
        }
    }
    if names_unique(r1) {
        let f = |p: (Seq<char>, NamesRep)| (p.0, to_map(p.1));
        assert forall|i: int| 0 <= i < r1.len() implies #[trigger] r1.map_values(f)[i] == r2.map_values(
            f,
        )[i] by {
            assert(keys_unique(r1[i].1));
            assert(r1[i].0 == r2[i].0);
            lemma_reordered_to_map(r1[i].1, r2[i].1);
        }
        assert(r1.map_values(f) =~= r2.map_values(f));
    }
}

} // verus!
