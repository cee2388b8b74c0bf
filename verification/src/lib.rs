pub mod geom;
pub mod chars;
pub mod css;
pub mod document;
pub mod helpers;
pub mod input;
pub mod device;
pub mod symbolic_path;
pub mod metadata;
pub mod settings;
pub mod framebuffer;
pub mod font;
pub mod dictionary;
pub mod strmap;
pub mod dom;
pub mod style;
pub mod lights;
pub mod sorting;
pub mod kobo;
pub mod epub;
pub mod list_style;
pub mod power;
pub mod script_fonts;
