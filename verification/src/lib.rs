pub mod text;
pub mod fuzzy;
pub mod module;
pub mod modules;
pub mod picker;
pub mod icons;
pub mod thumbnails;
