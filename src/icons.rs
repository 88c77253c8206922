//! The icon sets, their categories, and lookups and rendering across them.

use vstd::prelude::*;

use crate::attrs::{rendered, AttrPair, IconAttrs};
use crate::table::{CanonicalMap, is_markup};

verus! {

/// Categories of the Bootstrap icons.
#[derive(Debug, Clone, Copy, PartialEq, Eq, PartialOrd, Ord, Hash)]
pub enum Bootstrap {
    Fill,
    Normal,
}

/// Categories of the Feather icons.
#[derive(Debug, Clone, Copy, PartialEq, Eq, PartialOrd, Ord, Hash)]
pub enum Feather {
    Normal,
}

/// Categories of the Font Awesome icons.
#[derive(Debug, Clone, Copy, PartialEq, Eq, PartialOrd, Ord, Hash)]
pub enum FontAwesome {
    Regular,
    Solid,
}

/// Categories of the Heroicons.
#[derive(Debug, Clone, Copy, PartialEq, Eq, PartialOrd, Ord, Hash)]
pub enum Heroicons {
    Outline,
    Solid,
}

/// Categories of the Ionicons.
#[derive(Debug, Clone, Copy, PartialEq, Eq, PartialOrd, Ord, Hash)]
pub enum Ionicons {
    Outline,
    Sharp,
    Normal,
}

/// Categories of the Octicons.
#[derive(Debug, Clone, Copy, PartialEq, Eq, PartialOrd, Ord, Hash)]
pub enum Octicons {
    Normal,
}

/// An icon set together with one of its categories.
#[derive(Debug, Clone, Copy, PartialEq, Eq, PartialOrd, Ord, Hash)]
pub enum IconType {
    Bootstrap(Bootstrap),
    Feather(Feather),
    FontAwesome(FontAwesome),
    Heroicons(Heroicons),
    Ionicons(Ionicons),
    Octicons(Octicons),
}

/// The label under which a category's icons are stored in its set's map.
pub open spec fn category_label(t: IconType) -> Seq<char> {
    match t {
        IconType::Bootstrap(Bootstrap::Fill) => "fill"@,
        IconType::Bootstrap(Bootstrap::Normal) => "normal"@,
        IconType::Feather(Feather::Normal) => "normal"@,
        IconType::FontAwesome(FontAwesome::Regular) => "regular"@,
        IconType::FontAwesome(FontAwesome::Solid) => "solid"@,
        IconType::Heroicons(Heroicons::Outline) => "outline"@,
        IconType::Heroicons(Heroicons::Solid) => "solid"@,
        IconType::Ionicons(Ionicons::Outline) => "outline"@,
        IconType::Ionicons(Ionicons::Sharp) => "sharp"@,
        IconType::Ionicons(Ionicons::Normal) => "normal"@,
        IconType::Octicons(Octicons::Normal) => "normal"@,
    }
}

impl IconType {
    /// The label under which this category's icons are stored.
    pub fn category(self) -> (r: &'static str)
        ensures
            r@ == category_label(self),
    {
        match self {
            IconType::Bootstrap(Bootstrap::Fill) => "fill",
            IconType::Bootstrap(Bootstrap::Normal) => "normal",
            IconType::Feather(Feather::Normal) => "normal",
            IconType::FontAwesome(FontAwesome::Regular) => "regular",
            IconType::FontAwesome(FontAwesome::Solid) => "solid",
            IconType::Heroicons(Heroicons::Outline) => "outline",
            IconType::Heroicons(Heroicons::Solid) => "solid",
            IconType::Ionicons(Ionicons::Outline) => "outline",
            IconType::Ionicons(Ionicons::Sharp) => "sharp",
            IconType::Ionicons(Ionicons::Normal) => "normal",
            IconType::Octicons(Octicons::Normal) => "normal",
        }
    }
}

/// The decoded maps of all icon sets.
#[derive(Debug)]
pub struct IconStore {
    pub bootstrap: CanonicalMap,
    pub feather: CanonicalMap,
    pub font_awesome: CanonicalMap,
    pub heroicons: CanonicalMap,
    pub ionicons: CanonicalMap,
    pub octicons: CanonicalMap,
}

impl IconStore {
    /// The map of the set that `t` belongs to.
    pub open spec fn table_for(&self, t: IconType) -> CanonicalMap {
        match t {
            IconType::Bootstrap(_) => self.bootstrap,
            IconType::Feather(_) => self.feather,
            IconType::FontAwesome(_) => self.font_awesome,
            IconType::Heroicons(_) => self.heroicons,
            IconType::Ionicons(_) => self.ionicons,
            IconType::Octicons(_) => self.octicons,
        }
    }

    /// Whether the store holds icon `name` of type `t`.
    pub open spec fn has(&self, t: IconType, name: Seq<char>) -> bool {
        self.table_for(t).has_icon(category_label(t), name)
    }

    /// The stored markup of icon `name` of type `t`.
    pub open spec fn markup(&self, t: IconType, name: Seq<char>) -> Seq<char> {
        self.table_for(t)@[category_label(t)][name]
    }

    /// What rendering icon `name` of type `t` with attributes `attrs` gives.
    pub open spec fn rendering(&self, t: IconType, name: Seq<char>, attrs: Seq<AttrPair>) -> Option<
        Seq<char>,
    > {
        if self.has(t, name) {
            Some(rendered(self.markup(t, name), attrs))
        } else {
            None
        }
    }

    fn table(&self, t: IconType) -> (r: &CanonicalMap)
        ensures
            *r == self.table_for(t),
    {
        match t {
            IconType::Bootstrap(_) => &self.bootstrap,
            IconType::Feather(_) => &self.feather,
            IconType::FontAwesome(_) => &self.font_awesome,
            IconType::Heroicons(_) => &self.heroicons,
            IconType::Ionicons(_) => &self.ionicons,
            IconType::Octicons(_) => &self.octicons,
        }
    }
}

/// Rendering an icon with no attributes gives its stored markup, and nothing
/// for an icon the store does not have.
pub proof fn lemma_render_plain(store: &IconStore, t: IconType, name: Seq<char>)
    ensures
        store.rendering(t, name, Seq::empty()) == if store.has(t, name) {
            Some(store.markup(t, name))
        } else {
            None
        },
{
}

/// The text of an optional string.
pub open spec fn text_of(r: Option<String>) -> Option<Seq<char>> {
    match r {
        Some(s) => Some(s@),
        None => None,
    }
}

/// The stored markup of icon `name` of type `icon_type`; `None` when the
/// store has no such icon.
pub fn get<'a>(store: &'a IconStore, icon_type: IconType, name: &str) -> (r: Option<&'a String>)
    ensures
        match r {
            Some(s) => store.has(icon_type, name@) && s@ == store.markup(icon_type, name@)
                && is_markup(s@),
            None => !store.has(icon_type, name@),
        },
{
    store.table(icon_type).lookup(icon_type.category(), name)
}

/// Icon `name` of type `icon_type` with `attrs` spliced into its opening tag;
/// `None` when the store has no such icon.
pub fn render(store: &IconStore, icon_type: IconType, name: &str, attrs: IconAttrs) -> (r: Option<
    String,
>)
    ensures
        text_of(r) == store.rendering(icon_type, name@, attrs@),
{
    let svg = store.table(icon_type).lookup(icon_type.category(), name);
    attrs.add_to_svg(svg)
}

/// A Bootstrap icon, filled or not, rendered with `attrs`.
pub fn bootstrap(store: &IconStore, name: &str, filled: bool, attrs: IconAttrs) -> (r: Option<
    String,
>)
    ensures
        text_of(r) == store.rendering(
            IconType::Bootstrap(if filled { Bootstrap::Fill } else { Bootstrap::Normal }),
            name@,
            attrs@,
        ),
{
    let t = if filled {
        IconType::Bootstrap(Bootstrap::Fill)
    } else {
        IconType::Bootstrap(Bootstrap::Normal)
    };
    render(store, t, name, attrs)
}

/// A Feather icon rendered with `attrs`.
pub fn feather(store: &IconStore, name: &str, attrs: IconAttrs) -> (r: Option<String>)
    ensures
        text_of(r) == store.rendering(IconType::Feather(Feather::Normal), name@, attrs@),
{
    render(store, IconType::Feather(Feather::Normal), name, attrs)
}

/// A Font Awesome icon of `category` rendered with `attrs`.
pub fn font_awesome(store: &IconStore, name: &str, category: FontAwesome, attrs: IconAttrs) -> (r:
    Option<String>)
    ensures
        text_of(r) == store.rendering(IconType::FontAwesome(category), name@, attrs@),
{
    render(store, IconType::FontAwesome(category), name, attrs)
}

/// A Heroicon, outlined or solid, rendered with `attrs`.
pub fn heroicons(store: &IconStore, name: &str, outline: bool, attrs: IconAttrs) -> (r: Option<
    String,
>)
    ensures
        text_of(r) == store.rendering(
            IconType::Heroicons(if outline { Heroicons::Outline } else { Heroicons::Solid }),
            name@,
            attrs@,
        ),
{
    let t = if outline {
        IconType::Heroicons(Heroicons::Outline)
    } else {
        IconType::Heroicons(Heroicons::Solid)
    };
    render(store, t, name, attrs)
}

/// An Ionicon of `category` rendered with `attrs`.
pub fn ionicons(store: &IconStore, name: &str, category: Ionicons, attrs: IconAttrs) -> (r: Option<
    String,
>)
    ensures
        text_of(r) == store.rendering(IconType::Ionicons(category), name@, attrs@),
{
    render(store, IconType::Ionicons(category), name, attrs)
}

/// An Octicon rendered with `attrs`.
pub fn octicons(store: &IconStore, name: &str, attrs: IconAttrs) -> (r: Option<String>)
    ensures
        text_of(r) == store.rendering(IconType::Octicons(Octicons::Normal), name@, attrs@),
{
    render(store, IconType::Octicons(Octicons::Normal), name, attrs)
}

} // verus!
