//! Core logic of a lightweight 3D mesh viewer: interface languages and
//! their translations, detection of the system language, and the
//! format-independent parts of the model loaders.

pub mod color;
pub mod i18n;
pub mod input;
pub mod loader;
pub mod mesh;
pub mod numbers;
pub mod settings;
pub mod text;
pub mod ui;
