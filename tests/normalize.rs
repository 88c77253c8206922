use iconset::{
    normalize_by_directory, normalize_by_suffix, route_icon, is_svg_markup, CanonicalMap,
    NormalizeError, SuffixCategory,
};

fn markup(tag: &str) -> String {
    format!("<svg viewBox=\"0 0 16 16\"><title>{tag}</title></svg>")
}

fn files(stems: &[&str]) -> Vec<(String, String)> {
    stems.iter().map(|s| (s.to_string(), markup(s))).collect()
}

fn routed(stem: &str) -> Option<(SuffixCategory, String)> {
    route_icon(stem)
}

#[test]
fn suffixes_route_to_categories() {
    assert_eq!(routed("alarm-fill"), Some((SuffixCategory::Fill, "alarm".to_string())));
    assert_eq!(routed("alarm-24"), Some((SuffixCategory::Normal, "alarm".to_string())));
    assert_eq!(routed("alarm-16"), None);
    assert_eq!(routed("alarm"), Some((SuffixCategory::Normal, "alarm".to_string())));
    assert_eq!(routed("alarm-outline"), Some((SuffixCategory::Outline, "alarm".to_string())));
    assert_eq!(routed("alarm-sharp"), Some((SuffixCategory::Sharp, "alarm".to_string())));
    assert_eq!(routed("color-fill"), Some((SuffixCategory::Normal, "color-fill".to_string())));
}

#[test]
fn only_the_final_suffix_is_stripped() {
    assert_eq!(routed("fill-fill"), Some((SuffixCategory::Fill, "fill".to_string())));
    assert_eq!(routed("a-fill-b"), Some((SuffixCategory::Normal, "a-fill-b".to_string())));
    assert_eq!(routed("-fill"), Some((SuffixCategory::Fill, "".to_string())));
    assert_eq!(routed("16"), Some((SuffixCategory::Normal, "16".to_string())));
    assert_eq!(routed("x-16-fill"), Some((SuffixCategory::Fill, "x-16".to_string())));
}

fn lookups(m: &CanonicalMap) -> Vec<Option<String>> {
    let mut out = Vec::new();
    for c in ["fill", "normal", "outline", "sharp"] {
        for n in ["alarm", "bell", "color-fill", "x"] {
            out.push(m.lookup(c, n).cloned());
        }
    }
    out
}

#[test]
fn suffix_normalisation_places_files() {
    let m = normalize_by_suffix(&files(&["alarm-fill", "alarm", "bell-24", "bell-16", "x-sharp", "color-fill"]))
        .unwrap();
    assert_eq!(m.lookup("fill", "alarm"), Some(&markup("alarm-fill")));
    assert_eq!(m.lookup("normal", "alarm"), Some(&markup("alarm")));
    assert_eq!(m.lookup("normal", "bell"), Some(&markup("bell-24")));
    assert_eq!(m.lookup("sharp", "x"), Some(&markup("x-sharp")));
    assert_eq!(m.lookup("normal", "color-fill"), Some(&markup("color-fill")));
    assert_eq!(m.lookup("outline", "alarm"), None);
    assert_eq!(m.lookup("fill", "bell"), None);
    assert_eq!(m.lookup("brands", "alarm"), None);
}

#[test]
fn suffix_normalisation_ignores_file_order() {
    let a = files(&["alarm-fill", "alarm", "bell-24", "bell-16", "x-sharp", "color-fill"]);
    let mut b = a.clone();
    b.reverse();
    b.swap(0, 3);
    let ma = normalize_by_suffix(&a).unwrap();
    let mb = normalize_by_suffix(&b).unwrap();
    assert_eq!(lookups(&ma), lookups(&mb));

    let clash = files(&["bell", "bell-24", "alarm"]);
    let mut reversed = clash.clone();
    reversed.reverse();
    assert_eq!(normalize_by_suffix(&clash).unwrap_err(), NormalizeError::DuplicateName);
    assert_eq!(normalize_by_suffix(&reversed).unwrap_err(), NormalizeError::DuplicateName);
}

#[test]
fn empty_directory_gives_all_categories_empty() {
    let m = normalize_by_suffix(&Vec::new()).unwrap();
    assert!(lookups(&m).iter().all(|l| l.is_none()));
    let again = CanonicalMap::decode(&m.encode()).unwrap();
    assert_eq!(again.encode(), m.encode());
}

#[test]
fn suffix_normalisation_rejects_non_markup() {
    let mut fs = files(&["alarm", "bell"]);
    fs.push(("readme".to_string(), "not an icon".to_string()));
    assert_eq!(normalize_by_suffix(&fs).unwrap_err(), NormalizeError::NotMarkup);
    let mut dropped = files(&["alarm"]);
    dropped.push(("tiny-16".to_string(), "not an icon".to_string()));
    assert!(normalize_by_suffix(&dropped).is_ok());
    let mut both = files(&["bell", "bell-24"]);
    both.push(("readme".to_string(), "".to_string()));
    assert_eq!(normalize_by_suffix(&both).unwrap_err(), NormalizeError::NotMarkup);
}

#[test]
fn directories_share_the_common_folder() {
    let declared = vec![
        ("regular".to_string(), files(&["address-book"])),
        ("solid".to_string(), files(&["address-book", "anchor"])),
    ];
    let shared = files(&["500px"]);
    let m = normalize_by_directory(&declared, &shared).unwrap();
    assert_eq!(m.lookup("regular", "500px"), Some(&markup("500px")));
    assert_eq!(m.lookup("solid", "500px"), Some(&markup("500px")));
    assert_eq!(m.lookup("solid", "anchor"), Some(&markup("anchor")));
    assert_eq!(m.lookup("regular", "anchor"), None);
    assert_eq!(m.lookup("brands", "500px"), None);
}

#[test]
fn directory_errors() {
    let twice = vec![("solid".to_string(), files(&["a"])), ("solid".to_string(), files(&["b"]))];
    assert_eq!(normalize_by_directory(&twice, &Vec::new()).unwrap_err(), NormalizeError::DuplicateCategory);

    let clash = vec![("solid".to_string(), files(&["a", "500px"]))];
    assert_eq!(normalize_by_directory(&clash, &files(&["500px"])).unwrap_err(), NormalizeError::DuplicateName);

    let own_clash = vec![("solid".to_string(), files(&["a", "a"]))];
    assert_eq!(normalize_by_directory(&own_clash, &Vec::new()).unwrap_err(), NormalizeError::DuplicateName);

    let bad = vec![("solid".to_string(), vec![("a".to_string(), "<svg/>".to_string())])];
    assert_eq!(normalize_by_directory(&bad, &Vec::new()).unwrap_err(), NormalizeError::NotMarkup);

    let empty = vec![("solid".to_string(), Vec::new())];
    let m = normalize_by_directory(&empty, &Vec::new()).unwrap();
    assert_eq!(m.lookup("solid", "a"), None);
}

#[test]
fn svg_tag_check() {
    assert!(is_svg_markup(&"<svg>".to_string()));
    assert!(is_svg_markup(&"<svg viewBox=\"0 0 1 1\"></svg>".to_string()));
    assert!(!is_svg_markup(&"<svg".to_string()));
    assert!(!is_svg_markup(&"<svg/>".to_string()));
    assert!(!is_svg_markup(&"<svgx>".to_string()));
    assert!(!is_svg_markup(&"<sv".to_string()));
    assert!(!is_svg_markup(&" <svg>".to_string()));
    assert!(!is_svg_markup(&"".to_string()));
}

#[test]
fn directory_normalisation_ignores_file_order() {
    let a = vec![
        ("regular".to_string(), files(&["a", "b", "c"])),
        ("solid".to_string(), files(&["c", "d"])),
    ];
    let mut b = a.clone();
    b[0].1.reverse();
    b[1].1.swap(0, 1);
    let shared = files(&["x", "y"]);
    let mut shared_b = shared.clone();
    shared_b.reverse();
    let ma = normalize_by_directory(&a, &shared).unwrap();
    let mb = normalize_by_directory(&b, &shared_b).unwrap();
    for c in ["regular", "solid"] {
        for n in ["a", "b", "c", "d", "x", "y", "z"] {
            assert_eq!(ma.lookup(c, n), mb.lookup(c, n));
        }
    }
    assert_eq!(ma.lookup("regular", "d"), None);
    assert_eq!(mb.lookup("solid", "y"), Some(&markup("y")));
}
