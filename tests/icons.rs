use iconset::{
    bootstrap, feather, font_awesome, get, heroicons, ionicons, normalize_by_directory,
    normalize_by_suffix, octicons, render, Bootstrap, CanonicalMap, DocValue, Feather,
    FontAwesome, Heroicons, IconAttrs, IconStore, IconType, Ionicons, Octicons,
};

/// The minified markup that the fixture holds for the icon file at `path`.
fn expected(path: &str) -> String {
    format!(
        "<svg xmlns=\"http://www.w3.org/2000/svg\" fill=\"none\" viewBox=\"0 0 24 24\"><desc>{path}</desc><path d=\"M12 6v6h4.5\"/></svg>"
    )
}

fn file(dir: &str, file_name: &str) -> (String, String) {
    let stem = file_name.strip_suffix(".svg").unwrap();
    (stem.to_string(), expected(&format!("{dir}/{file_name}")))
}

fn packed(map: CanonicalMap) -> CanonicalMap {
    let blob = map.encode();
    CanonicalMap::decode(&blob).expect("decodes")
}

fn suffix_set(dir: &str, names: &[&str]) -> CanonicalMap {
    let files: Vec<(String, String)> = names.iter().map(|n| file(dir, n)).collect();
    packed(normalize_by_suffix(&files).expect("normalises"))
}

fn directory_set(dir: &str, categories: &[(&str, &[&str])], shared: (&str, &[&str])) -> CanonicalMap {
    let declared: Vec<(String, Vec<(String, String)>)> = categories
        .iter()
        .map(|(c, names)| {
            let sub = format!("{dir}/{c}");
            (c.to_string(), names.iter().map(|n| file(&sub, n)).collect())
        })
        .collect();
    let sub = format!("{dir}/{}", shared.0);
    let shared: Vec<(String, String)> = shared.1.iter().map(|n| file(&sub, n)).collect();
    packed(normalize_by_directory(&declared, &shared).expect("normalises"))
}

fn store() -> IconStore {
    IconStore {
        bootstrap: suffix_set(
            "../icon_resources/bootstrap/icons",
            &["alarm.svg", "alarm-fill.svg", "color-fill.svg", "activity.svg"],
        ),
        feather: suffix_set("../icon_resources/feather/icons", &["activity.svg", "alarm.svg"]),
        font_awesome: directory_set(
            "../icon_resources/font-awesome/svgs",
            &[("regular", &["address-book.svg"]), ("solid", &["address-book.svg", "anchor.svg"])],
            ("brands", &["500px.svg"]),
        ),
        heroicons: directory_set(
            "../icon_resources/heroicons/optimized/24",
            &[("outline", &["academic-cap.svg"]), ("solid", &["academic-cap.svg"])],
            ("none", &[]),
        ),
        ionicons: suffix_set(
            "../icon_resources/ionicons/src/svg",
            &["alarm.svg", "alarm-outline.svg", "alarm-sharp.svg"],
        ),
        octicons: suffix_set(
            "../icon_resources/octicons/icons",
            &["alert-24.svg", "alert-16.svg", "bell-16.svg"],
        ),
    }
}

#[test]
fn bootstrap_icon_fill_should_work() {
    let store = store();
    assert_eq!(
        get(&store, IconType::Bootstrap(Bootstrap::Fill), "alarm"),
        Some(&expected("../icon_resources/bootstrap/icons/alarm-fill.svg"))
    );
}

#[test]
fn bootstrap_icon_should_work() {
    let store = store();
    assert_eq!(
        get(&store, IconType::Bootstrap(Bootstrap::Normal), "alarm"),
        Some(&expected("../icon_resources/bootstrap/icons/alarm.svg"))
    );
}

#[test]
fn feather_icon_should_work() {
    let store = store();
    assert_eq!(
        get(&store, IconType::Feather(Feather::Normal), "activity"),
        Some(&expected("../icon_resources/feather/icons/activity.svg"))
    );
}

#[test]
fn font_awesome_icon_brands_should_work() {
    let store = store();
    assert_eq!(
        get(&store, IconType::FontAwesome(FontAwesome::Regular), "500px"),
        Some(&expected("../icon_resources/font-awesome/svgs/brands/500px.svg"))
    );
}

#[test]
fn font_awesome_icon_regular_should_work() {
    let store = store();
    assert_eq!(
        get(&store, IconType::FontAwesome(FontAwesome::Regular), "address-book"),
        Some(&expected("../icon_resources/font-awesome/svgs/regular/address-book.svg"))
    );
}

#[test]
fn font_awesome_icon_solid_should_work() {
    let store = store();
    assert_eq!(
        get(&store, IconType::FontAwesome(FontAwesome::Solid), "address-book"),
        Some(&expected("../icon_resources/font-awesome/svgs/solid/address-book.svg"))
    );
}

#[test]
fn heroicons_icon_outline_should_work() {
    let store = store();
    assert_eq!(
        get(&store, IconType::Heroicons(Heroicons::Outline), "academic-cap"),
        Some(&expected("../icon_resources/heroicons/optimized/24/outline/academic-cap.svg"))
    );
}

#[test]
fn heroicons_icon_solid_should_work() {
    let store = store();
    assert_eq!(
        get(&store, IconType::Heroicons(Heroicons::Solid), "academic-cap"),
        Some(&expected("../icon_resources/heroicons/optimized/24/solid/academic-cap.svg"))
    );
}

#[test]
fn ionicons_icon_outline_should_work() {
    let store = store();
    assert_eq!(
        get(&store, IconType::Ionicons(Ionicons::Outline), "alarm"),
        Some(&expected("../icon_resources/ionicons/src/svg/alarm-outline.svg"))
    );
}

#[test]
fn ionicons_icon_sharp_should_work() {
    let store = store();
    assert_eq!(
        get(&store, IconType::Ionicons(Ionicons::Sharp), "alarm"),
        Some(&expected("../icon_resources/ionicons/src/svg/alarm-sharp.svg"))
    );
}

#[test]
fn ionicons_icon_should_work() {
    let store = store();
    assert_eq!(
        get(&store, IconType::Ionicons(Ionicons::Normal), "alarm"),
        Some(&expected("../icon_resources/ionicons/src/svg/alarm.svg"))
    );
}

#[test]
fn octicons_icon_should_work() {
    let store = store();
    assert_eq!(
        get(&store, IconType::Octicons(Octicons::Normal), "alert"),
        Some(&expected("../icon_resources/octicons/icons/alert-24.svg"))
    );
}

#[test]
fn bootstrap_not_filled_should_work() {
    let store = store();
    assert_eq!(
        bootstrap(&store, "alarm", false, IconAttrs::default()),
        Some(expected("../icon_resources/bootstrap/icons/alarm.svg"))
    );
}

#[test]
fn bootstrap_filled_should_work() {
    let store = store();
    assert_eq!(
        bootstrap(&store, "alarm", true, IconAttrs::default()),
        Some(expected("../icon_resources/bootstrap/icons/alarm-fill.svg"))
    );
}

#[test]
fn feather_should_work() {
    let store = store();
    assert_eq!(
        feather(&store, "activity", IconAttrs::default()),
        Some(expected("../icon_resources/feather/icons/activity.svg"))
    );
}

#[test]
fn font_awesome_brands_should_work() {
    let store = store();
    assert_eq!(
        font_awesome(&store, "500px", FontAwesome::Solid, IconAttrs::default()),
        Some(expected("../icon_resources/font-awesome/svgs/brands/500px.svg"))
    );
}

#[test]
fn font_awesome_regular_should_work() {
    let store = store();
    assert_eq!(
        font_awesome(&store, "address-book", FontAwesome::Regular, IconAttrs::default()),
        Some(expected("../icon_resources/font-awesome/svgs/regular/address-book.svg"))
    );
}

#[test]
fn font_awesome_solid_should_work() {
    let store = store();
    assert_eq!(
        font_awesome(&store, "address-book", FontAwesome::Solid, IconAttrs::default()),
        Some(expected("../icon_resources/font-awesome/svgs/solid/address-book.svg"))
    );
}

#[test]
fn heroicons_outline_should_work() {
    let store = store();
    assert_eq!(
        heroicons(&store, "academic-cap", true, IconAttrs::default()),
        Some(expected("../icon_resources/heroicons/optimized/24/outline/academic-cap.svg"))
    );
}

#[test]
fn heroicons_solid_should_work() {
    let store = store();
    assert_eq!(
        heroicons(&store, "academic-cap", false, IconAttrs::default()),
        Some(expected("../icon_resources/heroicons/optimized/24/solid/academic-cap.svg"))
    );
}

#[test]
fn ionicons_outline_should_work() {
    let store = store();
    assert_eq!(
        ionicons(&store, "alarm", Ionicons::Outline, IconAttrs::default()),
        Some(expected("../icon_resources/ionicons/src/svg/alarm-outline.svg"))
    );
}

#[test]
fn ionicons_sharp_should_work() {
    let store = store();
    assert_eq!(
        ionicons(&store, "alarm", Ionicons::Sharp, IconAttrs::default()),
        Some(expected("../icon_resources/ionicons/src/svg/alarm-sharp.svg"))
    );
}

#[test]
fn ionicons_should_work() {
    let store = store();
    assert_eq!(
        ionicons(&store, "alarm", Ionicons::Normal, IconAttrs::default()),
        Some(expected("../icon_resources/ionicons/src/svg/alarm.svg"))
    );
}

#[test]
fn octicons_should_work() {
    let store = store();
    assert_eq!(
        octicons(&store, "alert", IconAttrs::default()),
        Some(expected("../icon_resources/octicons/icons/alert-24.svg"))
    );
}

#[test]
fn bootstrap_with_class_should_work() {
    let store = store();
    let attrs = IconAttrs::default()
        .class("h-8 w-8 text-white")
        .fill("none")
        .stroke_color("currentColor");

    let icon = bootstrap(&store, "alarm", false, attrs).expect("exists");
    assert_eq!(&icon[..32], "<svg class=\"h-8 w-8 text-white\" ");
}

#[test]
fn json_attribute_should_work() {
    let store = store();
    let document = vec![
        ("class".to_string(), DocValue::Text("h-8 w-8 text-white".to_string())),
        ("fill".to_string(), DocValue::Text("none".to_string())),
        ("stroke_color".to_string(), DocValue::Text("currentColor".to_string())),
    ];
    let attrs = IconAttrs::from_document(&document);

    let icon = heroicons(&store, "academic-cap", true, attrs).expect("exists");
    assert_eq!(&icon[..32], "<svg class=\"h-8 w-8 text-white\" ");
}

#[test]
fn icon_should_not_exist() {
    let store = store();
    assert_eq!(get(&store, IconType::Feather(Feather::Normal), "not_exist"), None);
}

#[test]
fn lookup_of_absent_names_and_categories_is_none() {
    let store = store();
    assert_eq!(get(&store, IconType::Octicons(Octicons::Normal), "bell"), None);
    assert_eq!(get(&store, IconType::Bootstrap(Bootstrap::Fill), "activity"), None);
    assert_eq!(get(&store, IconType::FontAwesome(FontAwesome::Regular), "anchor"), None);
    assert_eq!(get(&store, IconType::Heroicons(Heroicons::Outline), "Academic-Cap"), None);
    assert_eq!(get(&store, IconType::Feather(Feather::Normal), ""), None);
    assert_eq!(feather(&store, "not_exist", IconAttrs::default().class("x")), None);
}

#[test]
fn special_name_stays_whole_in_normal() {
    let store = store();
    assert_eq!(
        get(&store, IconType::Bootstrap(Bootstrap::Normal), "color-fill"),
        Some(&expected("../icon_resources/bootstrap/icons/color-fill.svg"))
    );
    assert_eq!(get(&store, IconType::Bootstrap(Bootstrap::Fill), "color"), None);
}

#[test]
fn render_without_attributes_is_the_stored_markup() {
    let store = store();
    for t in [
        IconType::Bootstrap(Bootstrap::Fill),
        IconType::Ionicons(Ionicons::Sharp),
        IconType::Heroicons(Heroicons::Solid),
    ] {
        let name = match t {
            IconType::Heroicons(_) => "academic-cap",
            _ => "alarm",
        };
        let stored = get(&store, t, name).cloned();
        assert!(stored.is_some());
        assert_eq!(render(&store, t, name, IconAttrs::new()), stored);
    }
}

#[test]
fn end_to_end_example_renders_class_after_tag() {
    let files = vec![("alarm".to_string(), "<svg viewBox=\"0 0 24 24\">...</svg>".to_string())];
    let map = normalize_by_suffix(&files).unwrap();
    let empty = normalize_by_suffix(&Vec::new()).unwrap();
    let store = IconStore {
        bootstrap: map,
        feather: CanonicalMap::decode(&empty.encode()).unwrap(),
        font_awesome: CanonicalMap::decode(&empty.encode()).unwrap(),
        heroicons: CanonicalMap::decode(&empty.encode()).unwrap(),
        ionicons: CanonicalMap::decode(&empty.encode()).unwrap(),
        octicons: empty,
    };
    let attrs = IconAttrs::new().class("h-8 w-8");
    assert_eq!(
        render(&store, IconType::Bootstrap(Bootstrap::Normal), "alarm", attrs),
        Some("<svg class=\"h-8 w-8\" viewBox=\"0 0 24 24\">...</svg>".to_string())
    );
}
