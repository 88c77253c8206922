//! A compact store of SVG icon sets: normalising raw icon files into
//! category → name → markup maps, packing those maps into compressed blobs,
//! looking icons up, and rendering them with caller-supplied attributes.

pub mod attrs;
pub mod codec;
pub mod icons;
pub mod normalize;
pub mod table;

pub use attrs::{DocValue, IconAttrs, MAX_ATTRS};
pub use codec::CodecError;
pub use icons::{
    bootstrap, feather, font_awesome, get, heroicons, ionicons, octicons, render, Bootstrap,
    Feather, FontAwesome, Heroicons, IconStore, IconType, Ionicons, Octicons,
};
pub use normalize::{
    normalize_by_directory, normalize_by_suffix, route_icon, NormalizeError, SuffixCategory,
};
pub use table::{is_svg_markup, CanonicalMap};
